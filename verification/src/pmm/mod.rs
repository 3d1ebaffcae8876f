//! Physical frames: who hands them out, and a simple allocator over a set
//! of bits.

pub mod bitset;

use crate::common::{PhysAddr, PhysWidth};
use bitset::BoolBitset;
use vstd::arithmetic::div_mod::{lemma_mod_add_multiples_vanish, lemma_mod_bound, lemma_small_mod};
use vstd::prelude::*;

verus! {

/// A source of physical frames.
///
/// An allocator knows a set of frames, each of them free or in use. It
/// hands out only frames that were free, and a frame that it handed out
/// stays in use until it is given back.
pub trait FrameAllocator {
    /// What holds of the allocator between calls.
    spec fn inv(&self) -> bool;

    /// Whether the allocator hands out and takes back the frame `pfn`.
    spec fn manages(&self, pfn: u64) -> bool;

    /// Whether the frame `pfn` is free.
    spec fn is_free(&self, pfn: u64) -> bool;

    /// Hands out a free frame, as the start of the frame at the given
    /// width, or nothing where no frame is free. The width must be able
    /// to address every frame that the allocator manages.
    fn allocate_frame<T>(&mut self, width: PhysWidth) -> (frame: Option<PhysAddr<T>>)
        requires
            old(self).inv(),
            forall|pfn: u64| old(self).manages(pfn) ==> width.spec_is_pfn_valid(pfn),
        ensures
            final(self).inv(),
            forall|pfn: u64| final(self).manages(pfn) == old(self).manages(pfn),
            frame matches Some(f) ==> f.wf() && f.spec_offset() == 0 && f.spec_width() == width
                && old(self).manages(f.spec_pfn()) && old(self).is_free(f.spec_pfn())
                && !final(self).is_free(f.spec_pfn()),
            forall|pfn: u64|
                (frame matches Some(f) ==> pfn != f.spec_pfn()) ==> final(self).is_free(pfn)
                    == old(self).is_free(pfn),
            frame is None ==> forall|pfn: u64| !old(self).is_free(pfn),
    ;

    /// Takes back a frame that the allocator manages.
    fn deallocate_frame<T>(&mut self, frame: PhysAddr<T>)
        requires
            old(self).inv(),
            old(self).manages(frame.spec_pfn()),
        ensures
            final(self).inv(),
            forall|pfn: u64| final(self).manages(pfn) == old(self).manages(pfn),
            final(self).is_free(frame.spec_pfn()),
            forall|pfn: u64|
                pfn != frame.spec_pfn() ==> final(self).is_free(pfn) == old(self).is_free(pfn),
    ;
}

/// Whether the allocator has no free frame.
pub open spec fn no_frame_free<FA: FrameAllocator>(fa: &FA) -> bool {
    forall|pfn: u64| !fa.is_free(pfn)
}

/// Whether the allocator has fewer than `count` free frames, for a count
/// up to three.
pub open spec fn fewer_free_than<FA: FrameAllocator>(fa: &FA, count: nat) -> bool {
    if count == 0 {
        false
    } else if count == 1 {
        forall|a: u64| !fa.is_free(a)
    } else if count == 2 {
        forall|a: u64, b: u64|
            #![trigger fa.is_free(a), fa.is_free(b)]
            a != b ==> !(fa.is_free(a) && fa.is_free(b))
    } else {
        forall|a: u64, b: u64, c: u64|
            #![trigger fa.is_free(a), fa.is_free(b), fa.is_free(c)]
            a != b && a != c && b != c ==> !(fa.is_free(a) && fa.is_free(b) && fa.is_free(c))
    }
}

/// Whether `frames` are free frames of the allocator, each named once.
pub open spec fn free_frames<FA: FrameAllocator>(fa: &FA, frames: Seq<u64>) -> bool {
    frames.no_duplicates() && forall|k: int|
        0 <= k < frames.len() ==> fa.is_free(#[trigger] frames[k])
}

/// Whether `taken` are the frames that the allocator has handed out from
/// `before` to `after`, each named once: the others are free as they
/// were.
pub open spec fn frames_taken<FA: FrameAllocator>(before: &FA, after: &FA, taken: Seq<u64>) -> bool {
    &&& free_frames(before, taken)
    &&& forall|pfn: u64|
        #![trigger after.is_free(pfn)]
        after.is_free(pfn) == (before.is_free(pfn) && !taken.contains(pfn))
}

/// One frame more, or none, handed out after others.
pub proof fn lemma_taken_next<FA: FrameAllocator>(
    before: &FA,
    between: &FA,
    after: &FA,
    taken: Seq<u64>,
    frame: Option<u64>,
)
    requires
        frames_taken(before, between, taken),
        frame matches Some(f) ==> between.is_free(f) && !after.is_free(f),
        forall|pfn: u64|
            (frame matches Some(f) ==> pfn != f) ==> after.is_free(pfn) == between.is_free(pfn),
    ensures
        frames_taken(
            before,
            after,
            match frame {
                Some(f) => taken.push(f),
                None => taken,
            },
        ),
{
    match frame {
        Some(f) => {
            let all = taken.push(f);
            assert(!taken.contains(f));
            assert forall|pfn: u64| #![trigger after.is_free(pfn)]
                after.is_free(pfn) == (before.is_free(pfn) && !all.contains(pfn)) by {
                if pfn == f {
                    assert(all[taken.len() as int] == f);
                } else {
                    assert(between.is_free(pfn) == (before.is_free(pfn) && !taken.contains(pfn)));
                    if taken.contains(pfn) {
                        let k = choose|k: int| 0 <= k < taken.len() && taken[k] == pfn;
                        assert(all[k] == pfn);
                    }
                    if all.contains(pfn) {
                        let k = choose|k: int| 0 <= k < all.len() && all[k] == pfn;
                        assert(taken[k] == pfn);
                    }
                }
            }
            assert forall|i: int, j: int| 0 <= i < all.len() && 0 <= j < all.len() && i != j
                implies all[i] != all[j] by {
                if i < taken.len() && j < taken.len() {
                } else if i < taken.len() {
                    assert(taken.contains(taken[i]));
                } else if j < taken.len() {
                    assert(taken.contains(taken[j]));
                }
            }
            assert forall|k: int| 0 <= k < all.len() implies before.is_free(#[trigger] all[k]) by {
                if k < taken.len() {
                    assert(all[k] == taken[k]);
                }
            }
        },
        None => {
            assert forall|pfn: u64| #![trigger after.is_free(pfn)]
                after.is_free(pfn) == (before.is_free(pfn) && !taken.contains(pfn)) by {
                assert(between.is_free(pfn) == (before.is_free(pfn) && !taken.contains(pfn)));
            }
        },
    }
}

/// Frames handed out after others: together they are what was handed
/// out from the first state to the last.
pub proof fn lemma_taken_after<FA: FrameAllocator>(
    before: &FA,
    between: &FA,
    after: &FA,
    first: Seq<u64>,
    then: Seq<u64>,
)
    requires
        frames_taken(before, between, first),
        frames_taken(between, after, then),
    ensures
        frames_taken(before, after, first + then),
{
    let all = first + then;
    assert forall|k: int| 0 <= k < then.len() implies before.is_free(#[trigger] then[k])
        && !first.contains(then[k]) by {
        assert(between.is_free(then[k]));
    }
    assert forall|i: int, j: int| 0 <= i < all.len() && 0 <= j < all.len() && i != j implies all[i]
        != all[j] by {
        if i < first.len() && j >= first.len() {
            assert(first.contains(first[i]));
            assert(!first.contains(then[j - first.len()]));
        } else if j < first.len() && i >= first.len() {
            assert(first.contains(first[j]));
            assert(!first.contains(then[i - first.len()]));
        }
    }
    assert forall|k: int| 0 <= k < all.len() implies before.is_free(#[trigger] all[k]) by {
        if k < first.len() {
            assert(all[k] == first[k]);
        } else {
            assert(all[k] == then[k - first.len()]);
        }
    }
    assert forall|pfn: u64| #![trigger after.is_free(pfn)]
        after.is_free(pfn) == (before.is_free(pfn) && !all.contains(pfn)) by {
        assert(between.is_free(pfn) == (before.is_free(pfn) && !first.contains(pfn)));
        if first.contains(pfn) {
            let k = choose|k: int| 0 <= k < first.len() && first[k] == pfn;
            assert(all[k] == pfn);
        }
        if then.contains(pfn) {
            let k = choose|k: int| 0 <= k < then.len() && then[k] == pfn;
            assert(all[k + first.len()] == pfn);
        }
        if all.contains(pfn) {
            let k = choose|k: int| 0 <= k < all.len() && all[k] == pfn;
            if k < first.len() {
                assert(first[k] == pfn);
            } else {
                assert(then[k - first.len()] == pfn);
            }
        }
    }
}

/// Where an allocator has handed out `taken` and has no frame left, no
/// more frames were free than it handed out.
pub proof fn lemma_none_left<FA: FrameAllocator>(
    before: &FA,
    after: &FA,
    taken: Seq<u64>,
    frames: Seq<u64>,
)
    requires
        frames_taken(before, after, taken),
        no_frame_free(after),
        free_frames(before, frames),
    ensures
        frames.len() <= taken.len(),
{
    assert forall|k: int| 0 <= k < frames.len() implies taken.contains(#[trigger] frames[k]) by {
        assert(!after.is_free(frames[k]));
    }
    lemma_no_more_than(frames, taken);
}

/// Frames that are named once and all lie among `others` are no more than
/// those.
pub proof fn lemma_no_more_than(frames: Seq<u64>, others: Seq<u64>)
    requires
        frames.no_duplicates(),
        forall|k: int| 0 <= k < frames.len() ==> others.contains(#[trigger] frames[k]),
    ensures
        frames.len() <= others.len(),
{
    frames.unique_seq_to_set();
    others.lemma_cardinality_of_set();
    assert(frames.to_set().subset_of(others.to_set())) by {
        assert forall|x: u64| frames.to_set().contains(x) implies others.to_set().contains(x) by {
            let k = choose|k: int| 0 <= k < frames.len() && frames[k] == x;
            assert(others.contains(frames[k]));
        }
    }
    vstd::set_lib::lemma_len_subset(frames.to_set(), others.to_set());
}

/// An allocator that has handed out fewer than `count` frames and has
/// none left had fewer than `count` free frames.
pub proof fn lemma_all_taken<FA: FrameAllocator>(before: &FA, after: &FA, taken: Seq<u64>, count: nat)
    requires
        frames_taken(before, after, taken),
        no_frame_free(after),
        taken.len() < count <= 3,
    ensures
        fewer_free_than(before, count),
{
    assert forall|a: u64, b: u64, c: u64|
        a != b && a != c && b != c && before.is_free(a) && before.is_free(b) && before.is_free(
            c,
        ) implies taken.len() >= 3 by {
        assert(!after.is_free(a) && !after.is_free(b) && !after.is_free(c));
        lemma_no_more_than(seq![a, b, c], taken);
    }
    assert forall|a: u64, b: u64| a != b && before.is_free(a) && before.is_free(b) implies taken.len()
        >= 2 by {
        assert(!after.is_free(a) && !after.is_free(b));
        lemma_no_more_than(seq![a, b], taken);
    }
    assert forall|a: u64| before.is_free(a) implies taken.len() >= 1 by {
        assert(!after.is_free(a));
        lemma_no_more_than(seq![a], taken);
    }
}

/// An allocator that has handed out `count` frames had no fewer free
/// frames.
pub proof fn lemma_some_taken<FA: FrameAllocator>(before: &FA, taken: Seq<u64>, count: nat)
    requires
        free_frames(before, taken),
        count <= taken.len(),
        count <= 3,
    ensures
        !fewer_free_than(before, count),
{
    if count >= 1 {
        assert(before.is_free(taken[0]));
    }
    if count >= 2 {
        assert(before.is_free(taken[1]));
        assert(taken[0] != taken[1]);
    }
    if count >= 3 {
        assert(before.is_free(taken[2]));
        assert(taken[0] != taken[2] && taken[1] != taken[2]);
    }
}

/// The place `steps` places after `cursor` on a circle of `len` places.
pub open spec fn circular(cursor: int, steps: int, len: int) -> int {
    (cursor + steps) % len
}

/// Whether `index` is the first place not in use that is met from `cursor`
/// on, going once round `used`.
pub open spec fn first_free(used: Seq<bool>, cursor: int, index: int) -> bool {
    exists|steps: int|
        0 <= steps < used.len() && index == circular(cursor, steps, used.len() as int)
            && !used[index] && forall|earlier: int|
            0 <= earlier < steps ==> used[#[trigger] circular(cursor, earlier, used.len() as int)]
}

/// Whether every place of `used` is in use.
pub open spec fn exhausted(used: Seq<bool>) -> bool {
    forall|index: int| 0 <= index < used.len() ==> used[index]
}

/// Going once round from any place meets every place.
proof fn lemma_circular_covers(cursor: int, len: int, index: int)
    requires
        0 <= cursor < len,
        0 <= index < len,
    ensures
        exists|steps: int| 0 <= steps < len && index == #[trigger] circular(cursor, steps, len),
{
    if index >= cursor {
        lemma_small_mod(index as nat, len as nat);
        assert(index == circular(cursor, index - cursor, len));
    } else {
        lemma_small_mod(index as nat, len as nat);
        lemma_mod_add_multiples_vanish(index, len);
        assert(index == circular(cursor, index + len - cursor, len));
    }
}

/// There is one first free place at most.
pub proof fn lemma_first_free_is_one(used: Seq<bool>, cursor: int, a: int, b: int)
    requires
        first_free(used, cursor, a),
        first_free(used, cursor, b),
    ensures
        a == b,
{
    let len = used.len() as int;
    let sa = choose|steps: int|
        0 <= steps < used.len() && a == circular(cursor, steps, len) && !used[a] && forall|
            earlier: int,
        |
            0 <= earlier < steps ==> used[#[trigger] circular(cursor, earlier, len)];
    let sb = choose|steps: int|
        0 <= steps < used.len() && b == circular(cursor, steps, len) && !used[b] && forall|
            earlier: int,
        |
            0 <= earlier < steps ==> used[#[trigger] circular(cursor, earlier, len)];
    if sa < sb {
        assert(used[circular(cursor, sa, len)]);
    } else if sb < sa {
        assert(used[circular(cursor, sb, len)]);
    }
}

/// A frame that is given back before the cursor is the next to be handed
/// out: the cursor moves back to it, and the search from the cursor on
/// meets it first.
pub proof fn lemma_freed_frame_is_next(used: Seq<bool>, cursor: int, pfn: int, next: int)
    requires
        0 <= pfn < cursor < used.len(),
        first_free(used.update(pfn, false), pfn, next),
    ensures
        next == pfn,
{
    let freed = used.update(pfn, false);
    let len = used.len() as int;
    lemma_small_mod(pfn as nat, len as nat);
    assert(pfn == circular(pfn, 0, len));
    assert(first_free(freed, pfn, pfn));
    lemma_first_free_is_one(freed, pfn, pfn, next);
}

/// A frame allocator over a set of bits, bit `i` standing for frame `i` and
/// set where the frame is in use. It looks for a free frame from a cursor
/// on, which it leaves behind the frame it handed out.
pub struct BumpBitsetAllocator<'r, 'a> {
    pub bitset: &'r mut BoolBitset<'a>,
    pub cursor: usize,
}

impl<'r, 'a> BumpBitsetAllocator<'r, 'a> {
    /// The frames in use.
    pub open spec fn used(&self) -> Seq<bool> {
        self.bitset@
    }

    /// Where the next search starts.
    pub open spec fn cursor(&self) -> usize {
        self.cursor
    }

    /// An allocator over `bitset`, which searches from frame 0 on. The set
    /// must be small enough for two of its indices to be added.
    pub fn new(bitset: &'r mut BoolBitset<'a>) -> (allocator: Self)
        requires
            old(bitset)@.len() * 2 <= usize::MAX,
        ensures
            allocator.inv(),
            allocator.used() == old(bitset)@,
            allocator.cursor() == 0,
            *allocator.bitset == *old(bitset),
            *final(bitset) == *final(allocator.bitset),
    {
        Self { bitset, cursor: 0 }
    }
}

impl<'r, 'a> FrameAllocator for BumpBitsetAllocator<'r, 'a> {
    open spec fn inv(&self) -> bool {
        &&& self.used().len() * 2 <= usize::MAX
        &&& (self.cursor() < self.used().len() || self.cursor() == 0)
    }

    open spec fn manages(&self, pfn: u64) -> bool {
        pfn < self.used().len()
    }

    open spec fn is_free(&self, pfn: u64) -> bool {
        pfn < self.used().len() && !self.used()[pfn as int]
    }

    /// The first free frame from the cursor on, going round once; nothing
    /// only where every frame is in use.
    fn allocate_frame<T>(&mut self, width: PhysWidth) -> (frame: Option<PhysAddr<T>>)
        ensures
            frame is None <==> exhausted(old(self).used()),
            frame is None ==> final(self).used() == old(self).used() && final(self).cursor() == old(
                self,
            ).cursor(),
            frame matches Some(f) ==> first_free(
                old(self).used(),
                old(self).cursor() as int,
                f.spec_pfn() as int,
            ) && final(self).used() == old(self).used().update(f.spec_pfn() as int, true)
                && final(self).cursor() == (f.spec_pfn() + 1) % (old(self).used().len() as int),
            *final(final(self).bitset) == *final(old(self).bitset),
            final(final(self).bitset.storage)@ == final(old(self).bitset.storage)@,
    {
        let words: usize = self.bitset.len();
        let total_bits: usize = words * 64;
        let start: usize = self.cursor;
        for i in 0..total_bits
            invariant
                total_bits == self.bitset@.len(),
                total_bits * 2 <= usize::MAX,
                start == self.cursor,
                start < total_bits || start == 0,
                *self == *old(self),
                forall|pfn: u64| pfn < total_bits ==> width.spec_is_pfn_valid(pfn),
                forall|earlier: int|
                    0 <= earlier < i ==> self.bitset@[#[trigger] circular(
                        start as int,
                        earlier,
                        total_bits as int,
                    )],
        {
            let index: usize = (start + i) % total_bits;
            if !self.bitset.get(index) {
                self.bitset.set_at(index);
                self.cursor = (index + 1) % total_bits;
                proof {
                    assert(index == circular(start as int, i as int, total_bits as int));
                    lemma_mod_bound(index + 1, total_bits as int);
                }
                return Some(PhysAddr::new(index as u64, 0, width));
            }
        }
        proof {
            assert forall|index: int| 0 <= index < total_bits implies self.bitset@[index] by {
                lemma_circular_covers(start as int, total_bits as int, index);
            }
        }
        None
    }

    /// Marks the frame free, and moves the cursor back to it where it lies
    /// before the cursor.
    fn deallocate_frame<T>(&mut self, frame: PhysAddr<T>)
        ensures
            final(self).used() == old(self).used().update(frame.spec_pfn() as int, false),
            final(self).cursor() == if frame.spec_pfn() < old(self).cursor() {
                frame.spec_pfn() as usize
            } else {
                old(self).cursor()
            },
            *final(final(self).bitset) == *final(old(self).bitset),
            final(final(self).bitset.storage)@ == final(old(self).bitset.storage)@,
    {
        let pfn: usize = frame.pfn() as usize;
        self.bitset.clear_at(pfn);
        if pfn < self.cursor {
            self.cursor = pfn;
        }
    }
}

} // verus!
