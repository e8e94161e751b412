use vstd::prelude::*;
use vstd::utf8::encode_utf8;

verus! {

broadcast use {
    vstd::seq_lib::group_seq_properties,
    vstd::seq_lib::group_to_multiset_ensures,
};

/// Rank key of a candidate: its length in UTF-8 bytes, as `str::len` gives it.
pub open spec fn rank_key(c: Seq<char>) -> nat {
    (encode_utf8(c).len() as usize) as nat
}

/// The texts held by a sequence of strings.
pub open spec fn texts(v: Seq<String>) -> Seq<Seq<char>> {
    v.map_values(|s: String| s@)
}

/// Predicate: the candidate has rank key `n`.
pub open spec fn key_is(n: nat) -> spec_fn(Seq<char>) -> bool {
    |c: Seq<char>| rank_key(c) == n
}

/// Where `x` goes in `r`: after every trailing element whose key is not greater.
pub open spec fn slot(r: Seq<Seq<char>>, x: Seq<char>) -> int
    decreases r.len(),
{
    if r.len() == 0 {
        0
    } else if rank_key(r.last()) <= rank_key(x) {
        r.len() as int
    } else {
        slot(r.drop_last(), x)
    }
}

/// `s` ordered by rank key, ascending; equal keys keep their order in `s`.
pub open spec fn by_length(s: Seq<Seq<char>>) -> Seq<Seq<char>>
    decreases s.len(),
{
    if s.len() == 0 {
        Seq::empty()
    } else {
        let r = by_length(s.drop_last());
        r.insert(slot(r, s.last()), s.last())
    }
}

pub open spec fn sorted_by_key(r: Seq<Seq<char>>) -> bool {
    forall|i: int, j: int| 0 <= i < j < r.len() ==> rank_key(r[i]) <= rank_key(r[j])
}

proof fn lemma_slot(r: Seq<Seq<char>>, x: Seq<char>)
    requires
        sorted_by_key(r),
    ensures
        0 <= slot(r, x) <= r.len(),
        forall|j: int| 0 <= j < slot(r, x) ==> rank_key(r[j]) <= rank_key(x),
        forall|j: int| slot(r, x) <= j < r.len() ==> rank_key(r[j]) > rank_key(x),
    decreases r.len(),
{
    if r.len() > 0 {
        if rank_key(r.last()) > rank_key(x) {
            let d = r.drop_last();
            assert(sorted_by_key(d));
            lemma_slot(d, x);
            assert forall|j: int| 0 <= j < slot(r, x) implies rank_key(r[j]) <= rank_key(x) by {
                assert(r[j] == d[j]);
            }
            assert forall|j: int| slot(r, x) <= j < r.len() implies rank_key(r[j]) > rank_key(x) by {
                if j < d.len() {
                    assert(r[j] == d[j]);
                }
            }
        } else {
            assert forall|j: int| 0 <= j < slot(r, x) implies rank_key(r[j]) <= rank_key(x) by {
                if j < r.len() - 1 {
                    assert(rank_key(r[j]) <= rank_key(r[r.len() - 1]));
                }
            }
        }
    }
}

proof fn lemma_filter_none(s: Seq<Seq<char>>, p: spec_fn(Seq<char>) -> bool)
    requires
        forall|i: int| 0 <= i < s.len() ==> !p(s[i]),
    ensures
        s.filter(p) == Seq::<Seq<char>>::empty(),
    decreases s.len(),
{
    if s.len() == 0 {
        reveal(Seq::filter);
    } else {
        lemma_filter_none(s.drop_last(), p);
        assert(s.drop_last().push(s.last()) == s);
        s.drop_last().lemma_filter_push(s.last(), p);
    }
}

/// Ordering by length is a stable sort: the result is ordered by key, holds the
/// same elements as many times, and within each key keeps the original order.
pub proof fn lemma_by_length(s: Seq<Seq<char>>)
    ensures
        sorted_by_key(by_length(s)),
        by_length(s).to_multiset() == s.to_multiset(),
        forall|n: nat| #[trigger] by_length(s).filter(key_is(n)) == s.filter(key_is(n)),
    decreases s.len(),
{
    if s.len() == 0 {
        assert(by_length(s) == s);
    } else {
        let t = s.drop_last();
        let x = s.last();
        let r = by_length(t);
        lemma_by_length(t);
        lemma_slot(r, x);
        let p = slot(r, x);
        let ins = r.insert(p, x);
        assert(by_length(s) == ins);
        assert(s == t.push(x));
        assert(ins == r.subrange(0, p) + seq![x] + r.subrange(p, r.len() as int));
        assert(r == r.subrange(0, p) + r.subrange(p, r.len() as int));
        assert forall|n: nat| #[trigger] ins.filter(key_is(n)) == s.filter(key_is(n)) by {
            let k = key_is(n);
            let lo = r.subrange(0, p);
            let hi = r.subrange(p, r.len() as int);
            let one = seq![x];
            t.lemma_filter_push(x, k);
            Seq::filter_distributes_over_add(lo + one, hi, k);
            Seq::filter_distributes_over_add(lo, one, k);
            Seq::filter_distributes_over_add(lo, hi, k);
            assert(one == Seq::<Seq<char>>::empty().push(x));
            Seq::<Seq<char>>::empty().lemma_filter_push(x, k);
            lemma_filter_none(Seq::<Seq<char>>::empty(), k);
            if n == rank_key(x) {
                assert forall|i: int| 0 <= i < hi.len() implies !k(hi[i]) by {
                    assert(hi[i] == r[p + i]);
                }
                lemma_filter_none(hi, k);
                assert(one.filter(k) == one);
                assert(ins.filter(k) == lo.filter(k) + one);
                assert(r.filter(k) == lo.filter(k));
                assert(ins.filter(k) == r.filter(k).push(x));
            } else {
                assert(one.filter(k) == Seq::<Seq<char>>::empty());
                assert(ins.filter(k) == lo.filter(k) + hi.filter(k));
            }
        }
    }
}

/// The byte length of a string, which is its rank key.
fn key_of(s: &String) -> (r: usize)
    ensures
        r as nat == rank_key(s@),
{
    s.as_str().len()
}

/// Orders `v` by length, shortest first; strings of equal length keep their order.
pub fn rank_by_length(v: &Vec<String>) -> (r: Vec<String>)
    ensures
        texts(r@) == by_length(texts(v@)),
{
    let mut out: Vec<String> = Vec::new();
    let mut i: usize = 0;
    while i < v.len()
        invariant
            i <= v.len(),
            texts(out@) == by_length(texts(v@).subrange(0, i as int)),
        decreases v.len() - i,
    {
        let x = v[i].clone();
        let kx = key_of(&x);
        let ghost r = texts(out@);
        let mut p: usize = out.len();
        assert(r.subrange(0, p as int) == r);
        while p > 0
            invariant
                p <= out.len(),
                r == texts(out@),
                kx as nat == rank_key(x@),
                slot(r, x@) == slot(r.subrange(0, p as int), x@),
            ensures
                p == 0 || rank_key(r[p - 1]) <= rank_key(x@),
            decreases p,
        {
            assert(r.subrange(0, p as int).drop_last() == r.subrange(0, p - 1));
            let kp = key_of(&out[p - 1]);
            if kp <= kx {
                assert(r[p - 1] == out@[p - 1]@);
                break;
            }
            let ghost sub = r.subrange(0, p as int);
            assert(sub.last() == out@[p - 1]@);
            p = p - 1;
        }
        proof {
            if p > 0 {
                assert(r.subrange(0, p as int).last() == r[p - 1]);
            }
            assert(r.subrange(0, p as int).len() == p);
            assert(slot(r, x@) == p);
        }
        out.insert(p, x);
        proof {
            let s = texts(v@).subrange(0, i + 1);
            assert(s.drop_last() == texts(v@).subrange(0, i as int));
            assert(s.last() == x@);
            assert(texts(out@) == r.insert(p as int, x@));
        }
        i = i + 1;
    }
    assert(texts(v@).subrange(0, v.len() as int) == texts(v@));
    out
}

} // verus!
