//! Reassembly: the chunks that workers hand back are written into the
//! population, each at the index it names. A chunk that does not lie within
//! the region open to writing is dropped, and nothing else is touched.

use crate::individual::Individual;
use crate::messages::ProcessedCrossoverIndividuals;
use crate::messages::ProcessedIndividuals;
use vstd::prelude::*;

verus! {

/// A chunk of items and the index at which it is to be written.
pub type Patch<T> = (int, Seq<T>);

/// The patch lies within `[lo, size)`.
pub open spec fn fits<T>(size: int, lo: int, patch: Patch<T>) -> bool {
    lo <= patch.0 && patch.0 + patch.1.len() <= size
}

/// The patch writes index `i`.
pub open spec fn covers<T>(patch: Patch<T>, i: int) -> bool {
    patch.0 <= i < patch.0 + patch.1.len()
}

/// `dest` with the patch written into it, or `dest` itself where the patch
/// does not lie within `[lo, dest.len())`.
pub open spec fn overlaid<T>(dest: Seq<T>, lo: int, patch: Patch<T>) -> Seq<T> {
    if fits(dest.len() as int, lo, patch) {
        Seq::new(
            dest.len(),
            |i: int|
                if covers(patch, i) {
                    patch.1[i - patch.0]
                } else {
                    dest[i]
                },
        )
    } else {
        dest
    }
}

/// `dest` with the patches written into it one after the other.
pub open spec fn patched<T>(dest: Seq<T>, lo: int, patches: Seq<Patch<T>>) -> Seq<T>
    decreases patches.len(),
{
    if patches.len() == 0 {
        dest
    } else {
        overlaid(patched(dest, lo, patches.drop_last()), lo, patches.last())
    }
}

/// The patches that a list of results stands for, each moved by `offset`.
pub open spec fn patches_of<const N: usize>(
    replies: Seq<ProcessedIndividuals<N>>,
    offset: int,
) -> Seq<Patch<Individual<N>>> {
    Seq::new(replies.len(), |k: int| (offset + replies[k].idx, replies[k].population@))
}

/// Patching keeps the length.
pub proof fn lemma_patched_len<T>(dest: Seq<T>, lo: int, patches: Seq<Patch<T>>)
    ensures
        patched(dest, lo, patches).len() == dest.len(),
    decreases patches.len(),
{
    if patches.len() > 0 {
        lemma_patched_len(dest, lo, patches.drop_last());
    }
}

/// An index that no patch within the region writes keeps its item. This
/// holds of every index below the region.
pub proof fn lemma_patched_untouched<T>(dest: Seq<T>, lo: int, patches: Seq<Patch<T>>, i: int)
    requires
        0 <= i < dest.len(),
        forall|k: int|
            0 <= k < patches.len() ==> !(fits(dest.len() as int, lo, #[trigger] patches[k])
                && covers(patches[k], i)),
    ensures
        patched(dest, lo, patches)[i] == dest[i],
    decreases patches.len(),
{
    if patches.len() > 0 {
        let rest = patches.drop_last();
        assert forall|k: int| 0 <= k < rest.len() implies !(fits(
            dest.len() as int,
            lo,
            #[trigger] rest[k],
        ) && covers(rest[k], i)) by {
            assert(rest[k] == patches[k]);
        }
        lemma_patched_untouched(dest, lo, rest, i);
        lemma_patched_len(dest, lo, rest);
        assert(patches.last() == patches[patches.len() - 1]);
    }
}

/// An index that exactly one patch within the region writes holds that
/// patch's item, wherever in the list the patch stands: the order in which
/// disjoint results arrive is of no account.
pub proof fn lemma_patched_written<T>(
    dest: Seq<T>,
    lo: int,
    patches: Seq<Patch<T>>,
    k: int,
    i: int,
)
    requires
        0 <= lo,
        0 <= k < patches.len(),
        fits(dest.len() as int, lo, patches[k]),
        covers(patches[k], i),
        forall|j: int|
            0 <= j < patches.len() && j != k ==> !(fits(dest.len() as int, lo, #[trigger] patches[j])
                && covers(patches[j], i)),
    ensures
        patched(dest, lo, patches)[i] == patches[k].1[i - patches[k].0],
    decreases patches.len(),
{
    let rest = patches.drop_last();
    lemma_patched_len(dest, lo, rest);
    assert(patches.last() == patches[patches.len() - 1]);
    if k == patches.len() - 1 {
    } else {
        assert(rest[k] == patches[k]);
        assert forall|j: int| 0 <= j < rest.len() && j != k implies !(fits(
            dest.len() as int,
            lo,
            #[trigger] rest[j],
        ) && covers(rest[j], i)) by {
            assert(rest[j] == patches[j]);
        }
        lemma_patched_written(dest, lo, rest, k, i);
    }
}

/// `order` and `place` are orderings of `[0, n)`, each the inverse of the
/// other: result `k` answers chunk `order[k]`, and chunk `c` is answered by
/// result `place[c]`.
pub open spec fn are_inverse_orders(order: Seq<int>, place: Seq<int>, n: int) -> bool {
    &&& order.len() == n
    &&& place.len() == n
    &&& forall|k: int| 0 <= k < n ==> 0 <= #[trigger] order[k] < n && place[order[k]] == k
    &&& forall|c: int| 0 <= c < n ==> 0 <= #[trigger] place[c] < n && order[place[c]] == c
}

/// No index is written by two of the patches that lie within the region.
pub open spec fn patches_disjoint<T>(size: int, lo: int, patches: Seq<Patch<T>>) -> bool {
    forall|j: int, k: int, i: int|
        0 <= j < patches.len() && 0 <= k < patches.len() && j != k && fits(size, lo, patches[j])
            && fits(size, lo, patches[k]) ==> !(#[trigger] covers(patches[j], i)
            && #[trigger] covers(patches[k], i))
}

/// Disjoint patches give one result in whatever order they are written:
/// where `second` holds the patches of `first` in another order, patching
/// with either comes to the same.
pub proof fn lemma_patched_order_irrelevant<T>(
    dest: Seq<T>,
    lo: int,
    first: Seq<Patch<T>>,
    second: Seq<Patch<T>>,
    order: Seq<int>,
    place: Seq<int>,
)
    requires
        0 <= lo,
        are_inverse_orders(order, place, first.len() as int),
        second.len() == first.len(),
        forall|k: int| 0 <= k < second.len() ==> #[trigger] second[k] == first[order[k]],
        patches_disjoint(dest.len() as int, lo, first),
    ensures
        patched(dest, lo, first) == patched(dest, lo, second),
{
    let size = dest.len() as int;
    lemma_patched_len(dest, lo, first);
    lemma_patched_len(dest, lo, second);
    assert forall|i: int| 0 <= i < size implies patched(dest, lo, first)[i] == patched(
        dest,
        lo,
        second,
    )[i] by {
        if exists|c: int| 0 <= c < first.len() && fits(size, lo, #[trigger] first[c]) && covers(first[c], i) {
            let c = choose|c: int|
                0 <= c < first.len() && fits(size, lo, #[trigger] first[c]) && covers(first[c], i);
            let k = place[c];
            assert(second[k] == first[order[k]]);
            assert forall|j: int| 0 <= j < first.len() && j != c implies !(fits(
                size,
                lo,
                #[trigger] first[j],
            ) && covers(first[j], i)) by {
                if fits(size, lo, first[j]) {
                    assert(!(covers(first[j], i) && covers(first[c], i)));
                }
            }
            assert forall|j: int| 0 <= j < second.len() && j != k implies !(fits(
                size,
                lo,
                #[trigger] second[j],
            ) && covers(second[j], i)) by {
                let d = order[j];
                assert(second[j] == first[d]);
                assert(place[d] == j);
                assert(d != c);
            }
            lemma_patched_written(dest, lo, first, c, i);
            lemma_patched_written(dest, lo, second, k, i);
        } else {
            assert forall|j: int| 0 <= j < second.len() implies !(fits(
                size,
                lo,
                #[trigger] second[j],
            ) && covers(second[j], i)) by {
                assert(second[j] == first[order[j]]);
            }
            lemma_patched_untouched(dest, lo, first, i);
            lemma_patched_untouched(dest, lo, second, i);
        }
    }
    assert(patched(dest, lo, first) =~= patched(dest, lo, second));
}

/// Writes `items` into `dest` from index `at` on, where they lie within
/// `[lo, dest.len())`; else leaves `dest` as it is and says so.
pub fn place_chunk<T: Copy>(dest: &mut Vec<T>, lo: usize, at: usize, items: &Vec<T>) -> (placed:
    bool)
    ensures
        placed == fits(old(dest)@.len() as int, lo as int, (at as int, items@)),
        final(dest)@ == overlaid(old(dest)@, lo as int, (at as int, items@)),
{
    if at < lo || at > dest.len() || items.len() > dest.len() - at {
        return false;
    }
    let ghost patch: Patch<T> = (at as int, items@);
    let ghost before = dest@;
    let count = items.len();
    for j in 0..count
        invariant
            patch == (at as int, items@),
            count == items@.len(),
            dest@.len() == before.len(),
            before.len() <= usize::MAX,
            at + count <= before.len(),
            forall|i: int|
                0 <= i < before.len() ==> dest@[i] == if at <= i < at + j {
                    items@[i - at]
                } else {
                    before[i]
                },
    {
        dest[at + j] = items[j];
    }
    assert(dest@ =~= overlaid(before, lo as int, patch));
    true
}

/// Writes every result into `dest`, in the order of the list, at the index
/// it names moved by `offset`. A result that does not lie within
/// `[lo, dest.len())` is dropped.
pub fn reassemble<const N: usize>(
    dest: &mut Vec<Individual<N>>,
    lo: usize,
    offset: usize,
    replies: &Vec<ProcessedIndividuals<N>>,
)
    ensures
        final(dest)@ == patched(old(dest)@, lo as int, patches_of(replies@, offset as int)),
        final(dest)@.len() == old(dest)@.len(),
{
    let ghost before = dest@;
    let ghost patches = patches_of(replies@, offset as int);
    assert(before.len() == dest.len());
    for k in 0..replies.len()
        invariant
            patches == patches_of(replies@, offset as int),
            dest@ == patched(before, lo as int, patches.take(k as int)),
            dest@.len() == before.len(),
            before.len() <= usize::MAX,
    {
        let reply = &replies[k];
        proof {
            assert(patches.take(k + 1).drop_last() == patches.take(k as int));
            assert(patches.take(k + 1).last() == patches[k as int]);
            assert(patches[k as int] == (offset + reply.idx, reply.population@));
        }
        match offset.checked_add(reply.idx) {
            Some(at) => {
                place_chunk(dest, lo, at, &reply.population);
            },
            None => {},
        }
    }
    proof {
        assert(patches.take(replies@.len() as int) == patches);
    }
}

/// The patches that a list of crossover results stands for.
pub open spec fn offspring_patches_of<const N: usize>(
    replies: Seq<ProcessedCrossoverIndividuals<N>>,
) -> Seq<Patch<Individual<N>>> {
    Seq::new(replies.len(), |k: int| (replies[k].idx as int, replies[k].population@))
}

/// Writes every crossover result into `dest`, in the order of the list, at
/// the index it names. A result that does not lie within
/// `[lo, dest.len())` is dropped.
pub fn reassemble_offspring<const N: usize>(
    dest: &mut Vec<Individual<N>>,
    lo: usize,
    replies: &Vec<ProcessedCrossoverIndividuals<N>>,
)
    ensures
        final(dest)@ == patched(old(dest)@, lo as int, offspring_patches_of(replies@)),
        final(dest)@.len() == old(dest)@.len(),
{
    let ghost before = dest@;
    let ghost patches = offspring_patches_of(replies@);
    assert(before.len() == dest.len());
    for k in 0..replies.len()
        invariant
            patches == offspring_patches_of(replies@),
            dest@ == patched(before, lo as int, patches.take(k as int)),
            dest@.len() == before.len(),
    {
        let reply = &replies[k];
        proof {
            assert(patches.take(k + 1).drop_last() == patches.take(k as int));
            assert(patches.take(k + 1).last() == patches[k as int]);
            assert(patches[k as int] == (reply.idx as int, reply.population@));
        }
        place_chunk(dest, lo, reply.idx, &reply.population);
    }
    proof {
        assert(patches.take(replies@.len() as int) == patches);
    }
}

} // verus!
