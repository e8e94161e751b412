use vstd::prelude::*;
use crate::engine::{filtered_view, Session};
use crate::ranking::texts;

verus! {

/// How many candidate rows fit below the query line:
/// `max(0, floor((height - 2 * padding) / (line_height + line_spacing)) - 1)`.
pub open spec fn rows_for(height: int, padding: int, line_height: int, line_spacing: int) -> int {
    let k = (height - 2 * padding) / (line_height + line_spacing) - 1;
    if k < 0 { 0 } else { k }
}

/// The number of candidate rows a viewport of `height` pixels shows.
pub fn row_capacity(height: i32, padding: i32, line_height: i32, line_spacing: i32) -> (r: u64)
    requires
        line_height + line_spacing > 0,
    ensures
        r as int == rows_for(height as int, padding as int, line_height as int, line_spacing as int),
{
    let num: i64 = height as i64 - 2 * (padding as i64);
    let den: i64 = line_height as i64 + line_spacing as i64;
    if num < 0 {
        assert((num as int) / (den as int) < 0) by (nonlinear_arith)
            requires
                num < 0,
                den > 0,
        ;
        return 0;
    }
    let k: u64 = (num as u64) / (den as u64);
    if k == 0 {
        0
    } else {
        k - 1
    }
}

/// Left edge of the cursor: right after the query text, or at the padding when
/// the query is empty and nothing is drawn.
pub fn cursor_left(padding: i32, text_width: u32, query_empty: bool) -> (r: i64)
    ensures
        r == (if query_empty { padding as int } else { padding + text_width }),
{
    if query_empty {
        padding as i64
    } else {
        padding as i64 + text_width as i64
    }
}

/// What a renderer draws for one frame.
pub struct Snapshot {
    /// The query text.
    pub query: String,
    /// The visible part of the filtered view, best first.
    pub rows: Vec<String>,
}

/// The first `n` entries of `s`, or all of it when it is shorter.
pub open spec fn first_n(s: Seq<Seq<char>>, n: int) -> Seq<Seq<char>> {
    if n < s.len() { s.take(n) } else { s }
}

impl Session {
    /// The frame for the current query, showing at most `capacity` candidates.
    pub fn snapshot(&self, capacity: u64) -> (r: Snapshot)
        ensures
            r.query@ == self.spec_query(),
            texts(r.rows@) == first_n(filtered_view(self.store(), self.spec_query()), capacity as int),
    {
        let view = self.filtered_view();
        let mut rows: Vec<String> = Vec::new();
        let mut i: usize = 0;
        while i < view.len() && (i as u64) < capacity
            invariant
                i <= view.len(),
                i <= capacity,
                texts(rows@) == texts(view@).take(i as int),
            decreases view.len() - i,
        {
            rows.push(view[i].clone());
            assert(texts(view@).take(i + 1) == texts(view@).take(i as int).push(view@[i as int]@));
            i = i + 1;
        }
        assert(texts(view@).take(view@.len() as int) == texts(view@));
        Snapshot { query: self.query().clone(), rows }
    }
}

} // verus!
