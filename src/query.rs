use vstd::prelude::*;
use vstd::string::StringExecFns;

verus! {

/// Relies on `String::pop`: removes and returns the last character, or returns
/// `None` and leaves the string as it is when it is empty.
#[verifier::external_body]
fn pop_char(s: &mut String) -> (r: Option<char>)
    ensures
        old(s)@.len() == 0 ==> r is None && final(s)@ == old(s)@,
        old(s)@.len() > 0 ==> r == Some(old(s)@.last()) && final(s)@ == old(s)@.drop_last(),
{
    s.pop()
}

/// The text the user types; edited only at its end.
pub struct QueryBuffer {
    text: String,
}

impl View for QueryBuffer {
    type V = Seq<char>;

    closed spec fn view(&self) -> Seq<char> {
        self.text@
    }
}

/// The query after deleting its last character, if it has one.
pub open spec fn without_last(q: Seq<char>) -> Seq<char> {
    if q.len() == 0 { q } else { q.drop_last() }
}

impl QueryBuffer {
    pub fn new() -> (r: QueryBuffer)
        ensures
            r@ == Seq::<char>::empty(),
    {
        QueryBuffer { text: String::new() }
    }

    /// Appends `text` at the end; appending an empty text changes nothing.
    pub fn append(&mut self, text: &str)
        ensures
            final(self)@ == old(self)@ + text@,
            text@.len() == 0 ==> final(self)@ == old(self)@,
    {
        self.text.append(text);
        assert(text@.len() == 0 ==> self.text@ == old(self)@ + text@ && old(self)@ + text@
            == old(self)@);
    }

    /// Removes the last character; on an empty buffer this does nothing.
    pub fn delete_last(&mut self)
        ensures
            final(self)@ == without_last(old(self)@),
            old(self)@.len() == 0 ==> final(self)@ == old(self)@,
    {
        let _ = pop_char(&mut self.text);
    }

    pub fn is_empty(&self) -> (r: bool)
        ensures
            r == (self@.len() == 0),
    {
        self.text.as_str().is_empty()
    }

    pub fn text(&self) -> (r: &String)
        ensures
            r@ == self@,
    {
        &self.text
    }
}

} // verus!
