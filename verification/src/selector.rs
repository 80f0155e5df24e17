use vstd::prelude::*;

verus! {

/// A point of the integer grid on which speakers and requesters stand.
#[derive(Clone, Copy, Debug, PartialEq, Eq, Structural)]
pub struct Position {
    pub x: i32,
    pub y: i32,
}

/// Someone who can be spoken to: an opaque handle and where they stand.
#[derive(Clone, Copy, Debug, PartialEq, Eq, Structural)]
pub struct Candidate {
    pub id: u64,
    pub position: Position,
}

/// The square of the Euclidean distance between two points. Squares order
/// points as the distances themselves do, and stay exact.
pub open spec fn spec_distance_squared(a: Position, b: Position) -> int {
    (a.x - b.x) * (a.x - b.x) + (a.y - b.y) * (a.y - b.y)
}

/// The squared distance of each candidate from `requester`.
pub open spec fn squared_distances(requester: Position, candidates: Seq<Candidate>) -> Seq<int> {
    Seq::new(candidates.len(), |i: int| spec_distance_squared(requester, candidates[i].position))
}

/// Whether a squared distance lies within `range`. Without a range every
/// distance does; a distance equal to the range does.
pub open spec fn within(squared: int, range: Option<u64>) -> bool {
    match range {
        Some(r) => squared <= r * r,
        None => true,
    }
}

/// Whether position `i` is the nearest within `range`: it is within range,
/// nothing within range is nearer, and what is as near stands after it.
pub open spec fn is_nearest(squared: Seq<int>, range: Option<u64>, i: int) -> bool {
    &&& 0 <= i < squared.len()
    &&& within(squared[i], range)
    &&& forall|j: int|
        0 <= j < squared.len() && within(#[trigger] squared[j], range) ==> squared[i] <= squared[j]
    &&& forall|j: int| 0 <= j < i && within(#[trigger] squared[j], range) ==> squared[i] < squared[j]
}

/// At most one position is the nearest.
pub proof fn lemma_nearest_is_unique(squared: Seq<int>, range: Option<u64>, i: int, j: int)
    requires
        is_nearest(squared, range, i),
        is_nearest(squared, range, j),
    ensures
        i == j,
{
    if i < j {
        assert(within(squared[i], range));
        assert(squared[j] < squared[i]);
        assert(squared[i] <= squared[j]);
    } else if j < i {
        assert(within(squared[j], range));
        assert(squared[i] < squared[j]);
        assert(squared[j] <= squared[i]);
    }
}

/// The square of the Euclidean distance between `a` and `b`.
pub fn distance_squared(a: Position, b: Position) -> (squared: u128)
    ensures
        squared == spec_distance_squared(a, b),
{
    let dx: i128 = a.x as i128 - b.x as i128;
    let dy: i128 = a.y as i128 - b.y as i128;
    assert(0 <= dx * dx <= 0x1_0000_0000 * 0x1_0000_0000) by (nonlinear_arith)
        requires
            -0x1_0000_0000 <= dx <= 0x1_0000_0000,
    ;
    assert(0 <= dy * dy <= 0x1_0000_0000 * 0x1_0000_0000) by (nonlinear_arith)
        requires
            -0x1_0000_0000 <= dy <= 0x1_0000_0000,
    ;
    (dx * dx + dy * dy) as u128
}

/// Whether a squared distance lies within `range`.
pub fn is_within(squared: u128, range: Option<u64>) -> (yes: bool)
    ensures
        yes == within(squared as int, range),
{
    match range {
        Some(r) => {
            assert(0 <= r * r <= 0xffff_ffff_ffff_ffff * 0xffff_ffff_ffff_ffff) by (nonlinear_arith)
                requires
                    0 <= r <= 0xffff_ffff_ffff_ffff,
            ;
            squared <= (r as u128) * (r as u128)
        },
        None => true,
    }
}

/// The position in `candidates` of the one nearest to `requester` among
/// those within `range` (all of them, if `range` is `None`). Of several
/// equally near the first wins. `None` if no candidate is within range.
pub fn nearest_index(requester: Position, candidates: &Vec<Candidate>, range: Option<u64>) -> (found:
    Option<usize>)
    ensures
        match found {
            Some(i) => is_nearest(squared_distances(requester, candidates@), range, i as int),
            None => forall|j: int|
                0 <= j < candidates.len() ==> !within(
                    #[trigger] squared_distances(requester, candidates@)[j],
                    range,
                ),
        },
{
    let ghost squared = squared_distances(requester, candidates@);
    let mut best: Option<(usize, u128)> = None;
    let mut i: usize = 0;
    while i < candidates.len()
        invariant
            squared == squared_distances(requester, candidates@),
            i <= candidates.len(),
            match best {
                Some((at, d)) => d == squared[at as int] && is_nearest(
                    squared.take(i as int),
                    range,
                    at as int,
                ),
                None => forall|j: int| 0 <= j < i ==> !within(#[trigger] squared[j], range),
            },
        decreases candidates.len() - i,
    {
        let d = distance_squared(requester, candidates[i].position);
        let nearer = match best {
            Some((_, nearest)) => d < nearest,
            None => true,
        };
        proof {
            // What held of the candidates seen so far holds of them still.
            let seen = squared.take(i as int);
            let next = squared.take(i + 1);
            assert(forall|j: int| 0 <= j < i ==> seen[j] == next[j]);
            assert(next[i as int] == d);
        }
        if nearer && is_within(d, range) {
            best = Some((i, d));
        }
        i += 1;
    }
    assert(squared.take(i as int) =~= squared);
    match best {
        Some((at, _)) => Some(at),
        None => None,
    }
}

/// The handle of the candidate nearest to `requester` among those within
/// `range` (all of them, if `range` is `None`). Of several equally near the
/// first wins. `None` if there is no candidate or none within range.
pub fn select_nearest(requester: Position, candidates: &Vec<Candidate>, range: Option<u64>) -> (found:
    Option<u64>)
    ensures
        match found {
            Some(id) => exists|i: int|
                is_nearest(squared_distances(requester, candidates@), range, i) && id
                    == #[trigger] candidates[i].id,
            None => forall|j: int|
                0 <= j < candidates.len() ==> !within(
                    #[trigger] squared_distances(requester, candidates@)[j],
                    range,
                ),
        },
{
    match nearest_index(requester, candidates, range) {
        Some(i) => Some(candidates[i].id),
        None => None,
    }
}

} // verus!
