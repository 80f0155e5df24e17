use vstd::prelude::*;

verus! {

/// The position of the first item of `s` that satisfies `p`, or the length of
/// `s` if none does.
pub open spec fn first_where<T>(s: Seq<T>, p: spec_fn(T) -> bool) -> int
    decreases s.len(),
{
    if s.len() == 0 {
        0
    } else if p(s[0]) {
        0
    } else {
        1 + first_where(s.skip(1), p)
    }
}

/// `first_where` is within bounds, points at an item that satisfies `p` if it
/// points at any, and passes over none that does.
pub proof fn lemma_first_where<T>(s: Seq<T>, p: spec_fn(T) -> bool)
    ensures
        0 <= first_where(s, p) <= s.len(),
        first_where(s, p) < s.len() ==> p(s[first_where(s, p)]),
        forall|j: int| 0 <= j < first_where(s, p) ==> !p(#[trigger] s[j]),
    decreases s.len(),
{
    if s.len() > 0 && !p(s[0]) {
        let t = s.skip(1);
        lemma_first_where(t, p);
        assert forall|j: int| 0 <= j < first_where(s, p) implies !p(#[trigger] s[j]) by {
            if j > 0 {
                assert(s[j] == t[j - 1]);
            }
        }
    }
}

/// A position that `p` holds at, or the length of `s`, with `p` holding at no
/// position before it, is `first_where`.
pub proof fn lemma_first_where_is<T>(s: Seq<T>, p: spec_fn(T) -> bool, i: int)
    requires
        0 <= i <= s.len(),
        forall|j: int| 0 <= j < i ==> !p(#[trigger] s[j]),
        i == s.len() || p(s[i]),
    ensures
        first_where(s, p) == i,
    decreases s.len(),
{
    if i > 0 {
        let t = s.skip(1);
        assert(!p(s[0]));
        assert forall|j: int| 0 <= j < i - 1 implies !p(#[trigger] t[j]) by {
            assert(t[j] == s[j + 1]);
        }
        if i < s.len() {
            assert(t[i - 1] == s[i]);
        }
        lemma_first_where_is(t, p, i - 1);
    }
}

/// Whether `picks` names positions of a sequence of length `len` in
/// strictly rising order.
pub open spec fn rising(picks: Seq<int>, len: int) -> bool {
    &&& forall|k: int| 0 <= k < picks.len() ==> 0 <= #[trigger] picks[k] < len
    &&& forall|k: int, l: int| 0 <= k < l < picks.len() ==> picks[k] < picks[l]
}

/// Whether `part` is made of items of `whole`, in the order in which they
/// stand there, each position used at most once.
pub open spec fn ordered_part_of<T>(part: Seq<T>, whole: Seq<T>) -> bool {
    exists|picks: Seq<int>|
        {
            &&& picks.len() == part.len()
            &&& rising(picks, whole.len() as int)
            &&& forall|k: int| 0 <= k < part.len() ==> part[k] == whole[#[trigger] picks[k]]
        }
}

/// What a filter keeps is an ordered part of what it was given, and every
/// item kept satisfies the filter.
pub proof fn lemma_filter_ordered_part<T>(s: Seq<T>, p: spec_fn(T) -> bool)
    ensures
        ordered_part_of(s.filter(p), s),
        forall|k: int| 0 <= k < s.filter(p).len() ==> p(#[trigger] s.filter(p)[k]),
    decreases s.len(),
{
    reveal(Seq::filter);
    if s.len() == 0 {
        let picks = Seq::<int>::empty();
        assert(picks.len() == s.filter(p).len() && rising(picks, s.len() as int));
    } else {
        let init = s.drop_last();
        lemma_filter_ordered_part(init, p);
        let picks = choose|picks: Seq<int>|
            {
                &&& picks.len() == init.filter(p).len()
                &&& rising(picks, init.len() as int)
                &&& forall|k: int|
                    0 <= k < init.filter(p).len() ==> init.filter(p)[k] == init[#[trigger] picks[k]]
            };
        if p(s.last()) {
            let more = picks.push(s.len() - 1);
            assert(more.len() == s.filter(p).len());
            assert(rising(more, s.len() as int));
            assert forall|k: int| 0 <= k < s.filter(p).len() implies s.filter(p)[k]
                == s[#[trigger] more[k]] by {
                if k < picks.len() {
                    assert(init.filter(p)[k] == init[picks[k]]);
                }
            }
        } else {
            assert(rising(picks, s.len() as int));
            assert forall|k: int| 0 <= k < s.filter(p).len() implies s.filter(p)[k]
                == s[#[trigger] picks[k]] by {
                assert(init.filter(p)[k] == init[picks[k]]);
            }
        }
    }
}

} // verus!
