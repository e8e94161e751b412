use vstd::prelude::*;
use crate::matcher::{accepts, Matcher};
use crate::query::{without_last, QueryBuffer};
use crate::ranking::{by_length, key_is, lemma_by_length, rank_by_length, sorted_by_key, texts};

verus! {

broadcast use vstd::seq_lib::group_seq_properties;

/// Keys the engine reacts to; every other key is `Other`.
#[derive(Clone, Copy, Debug, PartialEq, Eq)]
pub enum Key {
    Escape,
    Backspace,
    Return,
    Other,
}

/// An input event as the input source delivers it.
#[derive(Debug)]
pub enum Event {
    /// The window was closed.
    Quit,
    KeyDown(Key),
    /// Text typed or pasted, possibly several characters.
    TextInput(String),
    /// Any event the engine ignores.
    Other,
}

/// How a session ends.
#[derive(Debug)]
pub enum Outcome {
    Confirmed(String),
    Cancelled,
}

/// Predicate: the candidate matches the query.
pub open spec fn matched_by(q: Seq<char>) -> spec_fn(Seq<char>) -> bool {
    |c: Seq<char>| accepts(c, q)
}

/// The candidates that match `q`, shortest first, equal lengths in store order.
pub open spec fn filtered_view(store: Seq<Seq<char>>, q: Seq<char>) -> Seq<Seq<char>> {
    by_length(store.filter(matched_by(q)))
}

/// What confirming picks: the first entry of the view, else the query itself.
pub open spec fn pick(view: Seq<Seq<char>>, q: Seq<char>) -> Seq<char> {
    if view.len() > 0 { view[0] } else { q }
}

pub open spec fn is_cancel(e: Event) -> bool {
    e is Quit || e == Event::KeyDown(Key::Escape)
}

pub open spec fn is_confirm(e: Event) -> bool {
    e == Event::KeyDown(Key::Return)
}

pub open spec fn is_terminal(e: Event) -> bool {
    is_cancel(e) || is_confirm(e)
}

/// The query after a non-terminal event.
pub open spec fn edited(q: Seq<char>, e: Event) -> Seq<char> {
    match e {
        Event::KeyDown(Key::Backspace) => without_last(q),
        Event::TextInput(t) => q + t@,
        _ => q,
    }
}

/// The outcome of a terminal event, as `Some(text)` for a confirmation and
/// `None` for a cancellation.
pub open spec fn verdict(store: Seq<Seq<char>>, q: Seq<char>, e: Event) -> Option<Seq<char>> {
    if is_cancel(e) {
        None
    } else {
        Some(pick(filtered_view(store, q), q))
    }
}

/// An outcome seen as `Some(text)` for a confirmation and `None` for a cancellation.
pub open spec fn outcome_model(o: Outcome) -> Option<Seq<char>> {
    match o {
        Outcome::Confirmed(s) => Some(s@),
        Outcome::Cancelled => None,
    }
}

/// The query left after feeding `es` in order, up to and not past the first
/// terminal event.
pub open spec fn query_after(store: Seq<Seq<char>>, q: Seq<char>, es: Seq<Event>) -> Seq<char>
    decreases es.len(),
{
    if es.len() == 0 || is_terminal(es[0]) {
        q
    } else {
        query_after(store, edited(q, es[0]), es.drop_first())
    }
}

/// The result of feeding `es` in order: `None` while no terminal event came,
/// else the verdict of the first terminal one.
pub open spec fn batch_result(store: Seq<Seq<char>>, q: Seq<char>, es: Seq<Event>) -> Option<
    Option<Seq<char>>,
>
    decreases es.len(),
{
    if es.len() == 0 {
        None
    } else if is_terminal(es[0]) {
        Some(verdict(store, q, es[0]))
    } else {
        batch_result(store, edited(q, es[0]), es.drop_first())
    }
}

proof fn lemma_filter_all(s: Seq<Seq<char>>, p: spec_fn(Seq<char>) -> bool)
    requires
        forall|i: int| 0 <= i < s.len() ==> p(s[i]),
    ensures
        s.filter(p) == s,
    decreases s.len(),
{
    if s.len() == 0 {
        reveal(Seq::filter);
    } else {
        lemma_filter_all(s.drop_last(), p);
        assert(s.drop_last().push(s.last()) == s);
        s.drop_last().lemma_filter_push(s.last(), p);
    }
}

/// The filtered view holds exactly the matching candidates of the store, each
/// as many times as there, ordered by length; candidates of equal length keep
/// their order in the store.
pub proof fn lemma_filtered_view(store: Seq<Seq<char>>, q: Seq<char>)
    ensures
        sorted_by_key(filtered_view(store, q)),
        filtered_view(store, q).to_multiset() == store.filter(matched_by(q)).to_multiset(),
        forall|c: Seq<char>|
            #[trigger] filtered_view(store, q).contains(c) <==> store.contains(c) && accepts(c, q),
        forall|n: nat|
            #[trigger] filtered_view(store, q).filter(key_is(n)) == store.filter(
                matched_by(q),
            ).filter(key_is(n)),
{
    broadcast use vstd::seq_lib::group_to_multiset_ensures;

    let m = store.filter(matched_by(q));
    lemma_by_length(m);
    assert forall|c: Seq<char>| #[trigger]
        filtered_view(store, q).contains(c) <==> store.contains(c) && accepts(c, q) by {
        assert(filtered_view(store, q).contains(c) <==> m.to_multiset().count(c) > 0);
        if m.contains(c) {
            store.lemma_filter_contains_rev(matched_by(q), c);
            let i = m.index_of(c);
            assert(matched_by(q)(m[i]));
        }
        if store.contains(c) && accepts(c, q) {
            let i = store.index_of(c);
            store.lemma_filter_contains(matched_by(q), i);
        }
        m.filter_lemma(matched_by(q));
    }
}

/// With an empty query every candidate matches: the view is the whole store
/// ordered by length.
pub proof fn lemma_empty_query_view(store: Seq<Seq<char>>)
    ensures
        filtered_view(store, Seq::empty()) == by_length(store),
{
    lemma_filter_all(store, matched_by(Seq::empty()));
}

/// A cancel event ends a batch with a cancellation whatever the query is; the
/// events after it change nothing.
pub proof fn lemma_cancel_ends_batch(store: Seq<Seq<char>>, q: Seq<char>, es: Seq<Event>, i: int)
    requires
        0 <= i < es.len(),
        is_cancel(es[i]),
        forall|j: int| 0 <= j < i ==> !is_terminal(#[trigger] es[j]),
    ensures
        batch_result(store, q, es) == Some(None::<Seq<char>>),
        query_after(store, q, es) == query_after(store, q, es.subrange(0, i)),
    decreases i,
{
    if i > 0 {
        let rest = es.drop_first();
        assert forall|j: int| 0 <= j < i - 1 implies !is_terminal(#[trigger] rest[j]) by {
            assert(rest[j] == es[j + 1]);
        }
        lemma_cancel_ends_batch(store, edited(q, es[0]), rest, i - 1);
        assert(es.subrange(0, i).drop_first() == rest.subrange(0, i - 1));
        assert(es.subrange(0, i)[0] == es[0]);
    }
}

/// Returns the first entry of `view`, or `query` when `view` is empty.
pub fn first_or_query(view: &Vec<String>, query: &String) -> (r: String)
    ensures
        r@ == pick(texts(view@), query@),
{
    if view.len() > 0 {
        view[0].clone()
    } else {
        query.clone()
    }
}

/// One launcher session awaiting input: the candidate store, the query and the matcher.
pub struct Session {
    candidates: Vec<String>,
    query: QueryBuffer,
    matcher: Matcher,
}

impl Session {
    /// The candidate store.
    pub closed spec fn store(&self) -> Seq<Seq<char>> {
        texts(self.candidates@)
    }

    /// The current query.
    pub closed spec fn spec_query(&self) -> Seq<char> {
        self.query@
    }

    /// A session over `candidates`, in the given order, with an empty query.
    pub fn new(candidates: Vec<String>) -> (r: Session)
        ensures
            r.store() == texts(candidates@),
            r.spec_query() == Seq::<char>::empty(),
    {
        Session { candidates, query: QueryBuffer::new(), matcher: Matcher::new() }
    }

    pub fn query(&self) -> (r: &String)
        ensures
            r@ == self.spec_query(),
    {
        self.query.text()
    }

    /// The candidates that match the current query, shortest first, ties in store order.
    pub fn filtered_view(&self) -> (r: Vec<String>)
        ensures
            texts(r@) == filtered_view(self.store(), self.spec_query()),
    {
        let q = self.query.text();
        let mut hits: Vec<String> = Vec::new();
        let mut i: usize = 0;
        while i < self.candidates.len()
            invariant
                i <= self.candidates.len(),
                q@ == self.spec_query(),
                texts(hits@) == texts(self.candidates@).subrange(0, i as int).filter(
                    matched_by(q@),
                ),
            decreases self.candidates.len() - i,
        {
            let ghost before = texts(self.candidates@).subrange(0, i as int);
            let c = &self.candidates[i];
            proof {
                assert(texts(self.candidates@).subrange(0, i + 1) == before.push(c@));
                before.lemma_filter_push(c@, matched_by(q@));
            }
            if self.matcher.matches(c.as_str(), q.as_str()) {
                hits.push(c.clone());
                assert(texts(hits@) == before.filter(matched_by(q@)).push(c@));
            }
            i = i + 1;
        }
        assert(texts(self.candidates@).subrange(0, i as int) == texts(self.candidates@));
        rank_by_length(&hits)
    }

    /// Feeds one event to the session. A cancel (quit or escape) or confirm
    /// (return) event ends the session and leaves the query as it is; any other
    /// event edits the query and the session goes on.
    pub fn handle_event(&mut self, e: &Event) -> (r: Option<Outcome>)
        ensures
            final(self).store() == old(self).store(),
            is_terminal(*e) ==> r is Some && outcome_model(r->0) == verdict(
                old(self).store(),
                old(self).spec_query(),
                *e,
            ) && final(self).spec_query() == old(self).spec_query(),
            is_confirm(*e) && filtered_view(old(self).store(), old(self).spec_query()).len() == 0
                ==> (r matches Some(Outcome::Confirmed(s)) && s@ == old(self).spec_query()),
            is_confirm(*e) && filtered_view(old(self).store(), old(self).spec_query()).len() > 0
                ==> (r matches Some(Outcome::Confirmed(s)) && s@ == filtered_view(
                old(self).store(),
                old(self).spec_query(),
            )[0]),
            is_cancel(*e) ==> r matches Some(Outcome::Cancelled),
            !is_terminal(*e) ==> r is None && final(self).spec_query() == edited(
                old(self).spec_query(),
                *e,
            ),
    {
        match e {
            Event::Quit => Some(Outcome::Cancelled),
            Event::KeyDown(Key::Escape) => Some(Outcome::Cancelled),
            Event::KeyDown(Key::Return) => {
                let view = self.filtered_view();
                Some(Outcome::Confirmed(first_or_query(&view, self.query.text())))
            },
            Event::KeyDown(Key::Backspace) => {
                self.query.delete_last();
                None
            },
            Event::TextInput(t) => {
                self.query.append(t.as_str());
                None
            },
            _ => None,
        }
    }

    /// Feeds a batch of events in arrival order until one ends the session;
    /// the events after that one are not looked at.
    pub fn process_batch(&mut self, events: &Vec<Event>) -> (r: Option<Outcome>)
        ensures
            final(self).store() == old(self).store(),
            final(self).spec_query() == query_after(old(self).store(), old(self).spec_query(), events@),
            r matches Some(o) ==> batch_result(old(self).store(), old(self).spec_query(), events@)
                == Some(outcome_model(o)),
            r is None ==> batch_result(old(self).store(), old(self).spec_query(), events@) is None,
    {
        let ghost store = self.store();
        let ghost q0 = self.spec_query();
        let mut i: usize = 0;
        assert(events@.subrange(0, events@.len() as int) == events@);
        while i < events.len()
            invariant
                i <= events.len(),
                self.store() == store,
                store == old(self).store(),
                q0 == old(self).spec_query(),
                query_after(store, q0, events@) == query_after(
                    store,
                    self.spec_query(),
                    events@.subrange(i as int, events@.len() as int),
                ),
                batch_result(store, q0, events@) == batch_result(
                    store,
                    self.spec_query(),
                    events@.subrange(i as int, events@.len() as int),
                ),
            decreases events.len() - i,
        {
            let ghost rest = events@.subrange(i as int, events@.len() as int);
            assert(rest[0] == events@[i as int]);
            assert(rest.drop_first() == events@.subrange(i + 1, events@.len() as int));
            let r = self.handle_event(&events[i]);
            if r.is_some() {
                return r;
            }
            i = i + 1;
        }
        assert(events@.subrange(i as int, events@.len() as int).len() == 0);
        None
    }
}

} // verus!
