//! What the tables of a hierarchy mean: where a walk for a page goes, what
//! it reads, how a page is translated, and how all of this changes while
//! the hierarchy is extended.

use super::builder::{leaf_entry, page_aligned};
use super::mapper::Error;
use crate::common::{PagingLevel, PhysWidth};
use crate::mmu::memory::{TableMemory, ENTRIES};
use crate::mmu::paging::{has_bit, CommonMappedEntry, BIT_PRESENT};
use crate::mmu::view::{
    directory_flags_of, directory_target, entry_is_directory, entry_is_leaf, lemma_zero_entry,
    DirectoryFlags, LeafFlags,
};
use crate::pmm::{fewer_free_than, FrameAllocator};
use vstd::prelude::*;

verus! {

/// The index at which page `vpn` is looked up in a table of `level`.
pub open spec fn index_at(vpn: u64, level: PagingLevel) -> usize {
    ((vpn >> (((level.spec_number() - 1) * 9) as u64)) & 0x1FF) as usize
}

/// The level of the tables that lie `depth` steps below the root of a
/// hierarchy of four levels.
pub open spec fn level_at_depth(depth: nat) -> PagingLevel {
    if depth == 0 {
        PagingLevel::Four
    } else if depth == 1 {
        PagingLevel::Three
    } else if depth == 2 {
        PagingLevel::Two
    } else {
        PagingLevel::One
    }
}

/// The number of steps from the root to the tables of `level`.
pub open spec fn depth_of(level: PagingLevel) -> nat {
    match level {
        PagingLevel::Five | PagingLevel::Four => 0,
        PagingLevel::Three => 1,
        PagingLevel::Two => 2,
        PagingLevel::One => 3,
    }
}

/// The level below a level.
pub open spec fn lower_level(level: PagingLevel) -> PagingLevel {
    match level {
        PagingLevel::Five => PagingLevel::Four,
        PagingLevel::Four => PagingLevel::Three,
        PagingLevel::Three => PagingLevel::Two,
        _ => PagingLevel::One,
    }
}

/// The indices by which the walk for page `vpn` goes down `depth` steps
/// from the root.
pub open spec fn path_of(vpn: u64, depth: nat) -> Seq<usize> {
    Seq::new(depth, |k: int| index_at(vpn, level_at_depth(k as nat)))
}

/// Whether each index of `path` is one of the 512 of a table.
pub open spec fn valid_path(path: Seq<usize>) -> bool {
    forall|k: int| 0 <= k < path.len() ==> #[trigger] path[k] < ENTRIES
}

/// One step down: from the table of `level` that was reached, if any, to
/// the table that its entry `index` points to.
pub open spec fn via<M: TableMemory>(
    mem: &M,
    width: PhysWidth,
    table: Option<u64>,
    index: usize,
    level: PagingLevel,
) -> Option<u64> {
    match table {
        Some(t) => {
            let raw = mem.entry(t, index);
            if entry_is_directory(raw, level) {
                Some(directory_target(raw, width))
            } else {
                None
            }
        },
        None => None,
    }
}

/// The frame of the table to which the indices of `path` lead from the
/// root table in frame `root`, where directories lead that far.
pub open spec fn table_by_path<M: TableMemory>(
    mem: &M,
    root: u64,
    width: PhysWidth,
    path: Seq<usize>,
) -> Option<u64> {
    let at_three = via(mem, width, Some(root), path[0], PagingLevel::Four);
    let at_two = via(mem, width, at_three, path[1], PagingLevel::Three);
    let at_one = via(mem, width, at_two, path[2], PagingLevel::Two);
    if path.len() == 0 {
        Some(root)
    } else if path.len() == 1 {
        at_three
    } else if path.len() == 2 {
        at_two
    } else if path.len() == 3 {
        at_one
    } else {
        None
    }
}

/// One step of a walk: from the table of `level` that the walk has
/// reached, if any, to the table below that its entry for `vpn` points to.
pub open spec fn step<M: TableMemory>(
    mem: &M,
    width: PhysWidth,
    table: Option<u64>,
    vpn: u64,
    level: PagingLevel,
) -> Option<u64> {
    via(mem, width, table, index_at(vpn, level), level)
}

/// The frame of the table of `level` at which the walk for page `vpn`
/// arrives from the root table in frame `root`, where directories lead
/// that far.
pub open spec fn table_at<M: TableMemory>(
    mem: &M,
    root: u64,
    width: PhysWidth,
    vpn: u64,
    level: PagingLevel,
) -> Option<u64> {
    match level {
        PagingLevel::Five => None,
        PagingLevel::Four => Some(root),
        PagingLevel::Three => step(mem, width, Some(root), vpn, PagingLevel::Four),
        PagingLevel::Two => step(
            mem,
            width,
            step(mem, width, Some(root), vpn, PagingLevel::Four),
            vpn,
            PagingLevel::Three,
        ),
        PagingLevel::One => step(
            mem,
            width,
            step(
                mem,
                width,
                step(mem, width, Some(root), vpn, PagingLevel::Four),
                vpn,
                PagingLevel::Three,
            ),
            vpn,
            PagingLevel::Two,
        ),
    }
}

/// The entry that the walk for page `vpn` reads in the table of `level`,
/// where it arrives there.
pub open spec fn entry_at<M: TableMemory>(
    mem: &M,
    root: u64,
    width: PhysWidth,
    vpn: u64,
    level: PagingLevel,
) -> Option<u64> {
    match table_at(mem, root, width, vpn, level) {
        Some(t) => Some(mem.entry(t, index_at(vpn, level))),
        None => None,
    }
}

/// The leaf of `level` that the walk for page `vpn` reads, where it reads
/// one.
pub open spec fn leaf_at<M: TableMemory>(
    mem: &M,
    root: u64,
    width: PhysWidth,
    vpn: u64,
    level: PagingLevel,
) -> Option<u64> {
    match entry_at(mem, root, width, vpn, level) {
        Some(raw) => if entry_is_leaf(raw, level) {
            Some(raw)
        } else {
            None
        },
        None => None,
    }
}

/// The leaf that translates page `vpn`, with its level, where the page is
/// mapped.
pub open spec fn translate<M: TableMemory>(mem: &M, root: u64, width: PhysWidth, vpn: u64) -> Option<
    (PagingLevel, u64),
> {
    if let Some(raw) = leaf_at(mem, root, width, vpn, PagingLevel::Three) {
        Some((PagingLevel::Three, raw))
    } else if let Some(raw) = leaf_at(mem, root, width, vpn, PagingLevel::Two) {
        Some((PagingLevel::Two, raw))
    } else if let Some(raw) = leaf_at(mem, root, width, vpn, PagingLevel::One) {
        Some((PagingLevel::One, raw))
    } else {
        None
    }
}

/// Whether the walks for pages `a` and `b` go by the same indices from the
/// root down to the table of `level` and into it: a leaf of the level that
/// maps one of the pages maps the other.
pub open spec fn same_way(a: u64, b: u64, level: PagingLevel) -> bool {
    path_of(a, depth_of(level) + 1) == path_of(b, depth_of(level) + 1)
}

/// The shape of a hierarchy: each frame that holds one of its tables, with
/// the indices that lead to the table from the root.
pub type Shape = Map<u64, Seq<usize>>;

/// Whether `shape` is the shape of the hierarchy under the root table in
/// frame `root`: it holds the root; every table in it is in use with the
/// allocator and is reached from the root by its indices; and the
/// directories of every table in it point to tables in it that lie one
/// step further down.
pub open spec fn shape_inv<FA: FrameAllocator, M: TableMemory>(
    shape: Shape,
    fa: &FA,
    mem: &M,
    root: u64,
    width: PhysWidth,
) -> bool {
    &&& shape.dom().contains(root)
    &&& shape[root].len() == 0
    &&& forall|t: u64| #[trigger]
        shape.dom().contains(t) ==> shape[t].len() <= 3 && !fa.is_free(t) && valid_path(shape[t])
            && table_by_path(mem, root, width, shape[t]) == Some(t)
    &&& forall|t: u64, i: usize|
        #![trigger mem.entry(t, i), shape.dom().contains(t)]
        shape.dom().contains(t) && i < ENTRIES && entry_is_directory(
            mem.entry(t, i),
            level_at_depth(shape[t].len()),
        ) ==> shape.dom().contains(directory_target(mem.entry(t, i), width)) && shape[directory_target(
            mem.entry(t, i),
            width,
        )] == shape[t].push(i)
}

/// What holds of a hierarchy, its memory and its allocator between calls.
pub open spec fn hierarchy_inv<FA: FrameAllocator, M: TableMemory>(
    shape: Shape,
    fa: &FA,
    mem: &M,
    root: u64,
    width: PhysWidth,
) -> bool {
    &&& fa.inv()
    &&& mem.inv()
    &&& width.wf()
    &&& forall|pfn: u64| fa.manages(pfn) ==> width.spec_is_pfn_valid(pfn)
    &&& shape_inv(shape, fa, mem, root, width)
}

/// Whether two memories hold the same tables.
pub open spec fn same_entries<M: TableMemory>(a: &M, b: &M) -> bool {
    forall|pfn: u64, i: usize| #![trigger a.entry(pfn, i)] i < ENTRIES ==> a.entry(pfn, i) == b.entry(pfn, i)
}

/// Whether two allocators hold the same frames, free and in use.
pub open spec fn same_frames<FA: FrameAllocator>(a: &FA, b: &FA) -> bool {
    &&& forall|pfn: u64| a.manages(pfn) == b.manages(pfn)
    &&& forall|pfn: u64| a.is_free(pfn) == b.is_free(pfn)
}

/// How a hierarchy changes while it is extended: the tables it had stay,
/// where they are; their present entries stay as they are; and the free
/// frames are those that were free and hold no table of it now.
pub open spec fn grows<FA: FrameAllocator, M: TableMemory>(
    old_shape: Shape,
    old_fa: &FA,
    old_mem: &M,
    new_shape: Shape,
    new_fa: &FA,
    new_mem: &M,
) -> bool {
    &&& forall|t: u64| #[trigger]
        old_shape.dom().contains(t) ==> new_shape.dom().contains(t) && new_shape[t] == old_shape[t]
    &&& forall|t: u64, i: usize|
        #![trigger new_mem.entry(t, i)]
        old_shape.dom().contains(t) && i < ENTRIES && has_bit(old_mem.entry(t, i), BIT_PRESENT)
            ==> new_mem.entry(t, i) == old_mem.entry(t, i)
    &&& forall|pfn: u64| new_fa.manages(pfn) == old_fa.manages(pfn)
    &&& forall|pfn: u64|
        #![trigger new_fa.is_free(pfn)]
        new_fa.is_free(pfn) == (old_fa.is_free(pfn) && !new_shape.dom().contains(pfn))
}

/// Whether nothing changed: not the tables, not the allocator, not the
/// shape of the hierarchy.
pub open spec fn unchanged<FA: FrameAllocator, M: TableMemory>(
    old_shape: Shape,
    old_fa: &FA,
    old_mem: &M,
    new_shape: Shape,
    new_fa: &FA,
    new_mem: &M,
) -> bool {
    &&& same_entries(new_mem, old_mem)
    &&& same_frames(new_fa, old_fa)
    &&& new_shape == old_shape
}

/// Whether a table at `path` lies on the way of page `vpn` from the root
/// table down to the table of `level`, the root apart.
pub open spec fn on_the_way(path: Seq<usize>, vpn: u64, level: PagingLevel) -> bool {
    1 <= path.len() <= depth_of(level) && path == path_of(vpn, path.len())
}

/// Whether the entry `raw` at `index` of a table that lies at `path` can
/// have been written by a walk for page `vpn` toward a leaf of `level`:
/// the table and the entry lie on the way of the page, and the entry is a
/// directory with the most permissive flags above the level and `leaf` at
/// the level.
pub open spec fn written_by_walk(
    path: Seq<usize>,
    index: usize,
    raw: u64,
    vpn: u64,
    level: PagingLevel,
    leaf: Option<u64>,
) -> bool {
    let at = level_at_depth(path.len());
    &&& path == path_of(vpn, path.len())
    &&& index == index_at(vpn, at)
    &&& if at.spec_number() > level.spec_number() {
        entry_is_directory(raw, at) && directory_flags_of(raw) == DirectoryFlags::permissive()
    } else {
        at == level && leaf == Some(raw)
    }
}

/// How a hierarchy changes by a walk for page `vpn` toward a leaf of
/// `level`: it grows, and every entry in it that differs from what was
/// there, or from zero in a new table, was written by the walk in the
/// place of an entry that was not present.
pub open spec fn extends<FA: FrameAllocator, M: TableMemory>(
    old_shape: Shape,
    old_fa: &FA,
    old_mem: &M,
    new_shape: Shape,
    new_fa: &FA,
    new_mem: &M,
    vpn: u64,
    level: PagingLevel,
    leaf: Option<u64>,
) -> bool {
    &&& grows(old_shape, old_fa, old_mem, new_shape, new_fa, new_mem)
    &&& forall|t: u64, i: usize|
        #![trigger new_mem.entry(t, i)]
        new_shape.dom().contains(t) && i < ENTRIES && new_mem.entry(t, i) != (if old_shape.dom().contains(
            t,
        ) {
            old_mem.entry(t, i)
        } else {
            0
        }) ==> written_by_walk(new_shape[t], i, new_mem.entry(t, i), vpn, level, leaf) && (
        old_shape.dom().contains(t) ==> !has_bit(old_mem.entry(t, i), BIT_PRESENT))
    &&& forall|t: u64| #[trigger]
        new_shape.dom().contains(t) && !old_shape.dom().contains(t) ==> on_the_way(
            new_shape[t],
            vpn,
            level,
        )
}

/// How far the tables lead on the way of a page to the table of some
/// level.
pub enum PathState {
    /// A leaf of a higher level maps the page already.
    Blocked,
    /// An entry on the way is not present: a table is missing.
    Missing,
    /// The tables lead to the table in this frame.
    Complete(u64),
}

/// One step down from the table of `level`, where the way led there.
pub open spec fn descend<M: TableMemory>(
    mem: &M,
    width: PhysWidth,
    vpn: u64,
    state: PathState,
    level: PagingLevel,
) -> PathState {
    match state {
        PathState::Complete(t) => {
            let raw = mem.entry(t, index_at(vpn, level));
            if entry_is_leaf(raw, level) {
                PathState::Blocked
            } else if entry_is_directory(raw, level) {
                PathState::Complete(directory_target(raw, width))
            } else {
                PathState::Missing
            }
        },
        other => other,
    }
}

/// How far the tables under the root table in frame `root` lead on the way
/// of page `vpn` to the table of `level`.
pub open spec fn path_state<M: TableMemory>(
    mem: &M,
    root: u64,
    width: PhysWidth,
    vpn: u64,
    level: PagingLevel,
) -> PathState {
    let at_four = PathState::Complete(root);
    let at_three = descend(mem, width, vpn, at_four, PagingLevel::Four);
    let at_two = descend(mem, width, vpn, at_three, PagingLevel::Three);
    match level {
        PagingLevel::Five | PagingLevel::Four => at_four,
        PagingLevel::Three => at_three,
        PagingLevel::Two => at_two,
        PagingLevel::One => descend(mem, width, vpn, at_two, PagingLevel::Two),
    }
}

/// The number of tables that a walk for page `vpn` must make on its way
/// to the table of `level`: one for each level from the first table that
/// is missing down to the level.
pub open spec fn missing_tables<M: TableMemory>(
    mem: &M,
    root: u64,
    width: PhysWidth,
    vpn: u64,
    level: PagingLevel,
) -> nat {
    if level is Four || level is Five {
        0
    } else if path_state(mem, root, width, vpn, PagingLevel::Three) is Missing {
        depth_of(level)
    } else if level is Three {
        0
    } else if path_state(mem, root, width, vpn, PagingLevel::Two) is Missing {
        (depth_of(level) - 1) as nat
    } else if level is Two {
        0
    } else if path_state(mem, root, width, vpn, PagingLevel::One) is Missing {
        1
    } else {
        0
    }
}

/// Whether a leaf of `level` can map page `vpn`: above level one the page
/// must lie on a boundary of the page size.
pub open spec fn va_aligned(vpn: u64, level: PagingLevel) -> bool {
    level is One || page_aligned(vpn, level)
}

/// Whether a leaf of `level` can map the page at the physical address with
/// frame `pfn` and offset `offset`.
pub open spec fn pa_aligned(pfn: u64, offset: u16, level: PagingLevel) -> bool {
    offset == 0 && page_aligned(pfn, level)
}

/// What becomes of the request for a leaf at an entry that the walk has
/// reached: a virtual address off the boundary of the page size is
/// refused first, then an entry that is present, then a physical address
/// off the boundary.
pub open spec fn leaf_outcome(present: bool, va_aligned: bool, pa_aligned: bool, entry: u64) -> Result<
    u64,
    Error,
> {
    if !va_aligned {
        Err(Error::MisalignedAddress)
    } else if present {
        Err(Error::EntryInUse)
    } else if !pa_aligned {
        Err(Error::MisalignedAddress)
    } else {
        Ok(entry)
    }
}

/// What a result says, with the entry of a leaf as the word it holds.
pub open spec fn outcome_of(result: Result<CommonMappedEntry, Error>) -> Result<u64, Error> {
    match result {
        Ok(entry) => Ok(entry.0),
        Err(error) => Err(error),
    }
}

/// The entry that a call has written as a leaf, where it has.
pub open spec fn written(leaf: Result<CommonMappedEntry, Error>) -> Option<u64> {
    match leaf {
        Ok(entry) => Some(entry.0),
        Err(_) => None,
    }
}

/// What `map_leaf` returns, as far as the tables decide it. Where a table
/// is missing the allocator decides too: the call fails with
/// `TableAllocation`, or goes on with empty tables.
pub open spec fn map_leaf_outcome<M: TableMemory>(
    mem: &M,
    root: u64,
    width: PhysWidth,
    vpn: u64,
    pfn: u64,
    offset: u16,
    flags: LeafFlags,
    level: PagingLevel,
    result: Result<u64, Error>,
) -> bool {
    let entry = leaf_entry(pfn, flags, level);
    let va_ok = va_aligned(vpn, level);
    let pa_ok = pa_aligned(pfn, offset, level);
    if level is Four || level is Five {
        result == Err::<u64, Error>(Error::InvalidLevel)
    } else {
        match path_state(mem, root, width, vpn, level) {
            PathState::Blocked => result == Err::<u64, Error>(Error::EntryInUse),
            PathState::Complete(t) => result == leaf_outcome(
                has_bit(mem.entry(t, index_at(vpn, level)), BIT_PRESENT),
                va_ok,
                pa_ok,
                entry,
            ),
            PathState::Missing => result == Err::<u64, Error>(Error::TableAllocation) || result
                == leaf_outcome(false, va_ok, pa_ok, entry),
        }
    }
}

/// Whether the place of a leaf of `level` for page `vpn` is in use: a leaf
/// of a higher level maps the page, or the tables lead to the entry and
/// it is present, with the page on the boundary of the page size.
pub open spec fn in_use<M: TableMemory>(
    mem: &M,
    root: u64,
    width: PhysWidth,
    vpn: u64,
    level: PagingLevel,
) -> bool {
    match path_state(mem, root, width, vpn, level) {
        PathState::Blocked => true,
        PathState::Complete(t) => va_aligned(vpn, level) && has_bit(
            mem.entry(t, index_at(vpn, level)),
            BIT_PRESENT,
        ),
        PathState::Missing => false,
    }
}

/// Whether the tables say why `map_leaf` has refused a leaf with `error`:
/// for `InvalidLevel` the level is none of one, two and three; for
/// `TableAllocation` a table on the way of the leaf is missing; for
/// `EntryInUse` a leaf of a higher level maps the page, or the entry for
/// the leaf is present; for `MisalignedAddress` the tables lead to the
/// entry, and the virtual address is off the boundary, or the entry is
/// free and the physical address is off it.
pub open spec fn refusal<M: TableMemory>(
    mem: &M,
    root: u64,
    width: PhysWidth,
    vpn: u64,
    pfn: u64,
    offset: u16,
    level: PagingLevel,
    error: Error,
) -> bool {
    let state = path_state(mem, root, width, vpn, level);
    if level is Four || level is Five {
        error == Error::InvalidLevel
    } else {
        match error {
            Error::TableAllocation => state is Missing,
            Error::EntryInUse => in_use(mem, root, width, vpn, level),
            Error::MisalignedAddress => match state {
                PathState::Complete(t) => !va_aligned(vpn, level) || (!has_bit(
                    mem.entry(t, index_at(vpn, level)),
                    BIT_PRESENT,
                ) && !pa_aligned(pfn, offset, level)),
                _ => false,
            },
            _ => false,
        }
    }
}

/// The translation of page `v` after a walk for page `vpn` toward a leaf
/// of `level`, where `before` was its translation before: where the walk
/// wrote `leaf`, and `leaf` is present, the pages that go the same way
/// are translated by it; every other page is translated as before.
pub open spec fn translation_after(
    before: Option<(PagingLevel, u64)>,
    vpn: u64,
    level: PagingLevel,
    leaf: Option<u64>,
    v: u64,
) -> Option<(PagingLevel, u64)> {
    match leaf {
        Some(raw) => if entry_is_leaf(raw, level) && same_way(v, vpn, level) {
            Some((level, raw))
        } else {
            before
        },
        None => before,
    }
}

/// The index of a page in a table is one of the 512 of a table.
pub proof fn lemma_index_at_range(vpn: u64, level: PagingLevel)
    ensures
        index_at(vpn, level) < ENTRIES,
{
    assert(forall|v: u64| #[trigger] (v & 0x1FF) < 512) by (bit_vector);
}

/// The walk goes on from where it has arrived by the indices of the page.
pub proof fn lemma_path_of_push(vpn: u64, level: PagingLevel)
    requires
        !(level is Five),
    ensures
        path_of(vpn, depth_of(level) + 1) == path_of(vpn, depth_of(level)).push(
            index_at(vpn, level),
        ),
        path_of(vpn, depth_of(level)).len() == depth_of(level),
        valid_path(path_of(vpn, depth_of(level))),
        valid_path(path_of(vpn, depth_of(level) + 1)),
{
    let longer = path_of(vpn, (depth_of(level) + 1) as nat);
    let pushed = path_of(vpn, depth_of(level)).push(index_at(vpn, level));
    assert(level_at_depth(depth_of(level)) == level);
    assert(longer.len() == pushed.len());
    assert forall|k: int| 0 <= k < longer.len() implies longer[k] == pushed[k] by {
        if k < depth_of(level) {
        } else {
        }
    }
    assert(longer =~= pushed);
    assert forall|k: int| 0 <= k < longer.len() implies #[trigger] longer[k] < ENTRIES by {
        lemma_index_at_range(vpn, level_at_depth(k as nat));
    }
    assert forall|k: int| 0 <= k < depth_of(level) implies #[trigger] path_of(
        vpn,
        depth_of(level),
    )[k] < ENTRIES by {
        lemma_index_at_range(vpn, level_at_depth(k as nat));
    }
}

/// A walk arrives where the indices of the page lead.
pub proof fn lemma_table_at_by_path<M: TableMemory>(
    mem: &M,
    root: u64,
    width: PhysWidth,
    vpn: u64,
    level: PagingLevel,
)
    requires
        !(level is Five),
    ensures
        table_at(mem, root, width, vpn, level) == table_by_path(
            mem,
            root,
            width,
            path_of(vpn, depth_of(level)),
        ),
{
}

/// The tables at which a walk arrives belong to the shape, where the walk
/// says they are.
pub proof fn lemma_table_at_known<FA: FrameAllocator, M: TableMemory>(
    shape: Shape,
    fa: &FA,
    mem: &M,
    root: u64,
    width: PhysWidth,
    vpn: u64,
    level: PagingLevel,
)
    requires
        shape_inv(shape, fa, mem, root, width),
    ensures
        table_at(mem, root, width, vpn, level) matches Some(t) ==> shape.dom().contains(t)
            && shape[t] == path_of(vpn, depth_of(level)),
{
    lemma_index_at_range(vpn, PagingLevel::Four);
    lemma_index_at_range(vpn, PagingLevel::Three);
    lemma_index_at_range(vpn, PagingLevel::Two);
    lemma_path_of_push(vpn, PagingLevel::Four);
    lemma_path_of_push(vpn, PagingLevel::Three);
    lemma_path_of_push(vpn, PagingLevel::Two);
    assert(shape[root] =~= path_of(vpn, 0));
    let t4 = Some(root);
    let t3 = step(mem, width, t4, vpn, PagingLevel::Four);
    let t2 = step(mem, width, t3, vpn, PagingLevel::Three);
    let t1 = step(mem, width, t2, vpn, PagingLevel::Two);
    if t3 is Some {
        assert(shape.dom().contains(t3->0) && shape[t3->0] == path_of(vpn, 1));
        if t2 is Some {
            assert(shape.dom().contains(t2->0) && shape[t2->0] == path_of(vpn, 2));
            if t1 is Some {
                assert(shape.dom().contains(t1->0) && shape[t1->0] == path_of(vpn, 3));
            }
        }
    }
}

/// While a hierarchy grows, a walk arrives where it arrived before.
pub proof fn lemma_tables_kept<FA: FrameAllocator, M: TableMemory>(
    shape: Shape,
    fa: &FA,
    mem: &M,
    new_shape: Shape,
    new_fa: &FA,
    new_mem: &M,
    root: u64,
    width: PhysWidth,
    vpn: u64,
    level: PagingLevel,
)
    requires
        shape_inv(shape, fa, mem, root, width),
        grows(shape, fa, mem, new_shape, new_fa, new_mem),
    ensures
        table_at(mem, root, width, vpn, level) is Some ==> table_at(
            new_mem,
            root,
            width,
            vpn,
            level,
        ) == table_at(mem, root, width, vpn, level),
{
    lemma_index_at_range(vpn, PagingLevel::Four);
    lemma_index_at_range(vpn, PagingLevel::Three);
    lemma_index_at_range(vpn, PagingLevel::Two);
    lemma_table_at_known(shape, fa, mem, root, width, vpn, PagingLevel::Three);
    lemma_table_at_known(shape, fa, mem, root, width, vpn, PagingLevel::Two);
    let t4 = Some(root);
    let t3 = step(mem, width, t4, vpn, PagingLevel::Four);
    let t2 = step(mem, width, t3, vpn, PagingLevel::Three);
    let t1 = step(mem, width, t2, vpn, PagingLevel::Two);
    if t3 is Some {
        assert(new_mem.entry(root, index_at(vpn, PagingLevel::Four)) == mem.entry(
            root,
            index_at(vpn, PagingLevel::Four),
        ));
        if t2 is Some {
            assert(new_mem.entry(t3->0, index_at(vpn, PagingLevel::Three)) == mem.entry(
                t3->0,
                index_at(vpn, PagingLevel::Three),
            ));
            if t1 is Some {
                assert(new_mem.entry(t2->0, index_at(vpn, PagingLevel::Two)) == mem.entry(
                    t2->0,
                    index_at(vpn, PagingLevel::Two),
                ));
            }
        }
    }
}

/// While a hierarchy grows, the indices of a path lead where they led
/// before.
pub proof fn lemma_paths_kept<FA: FrameAllocator, M: TableMemory>(
    shape: Shape,
    fa: &FA,
    mem: &M,
    new_shape: Shape,
    new_fa: &FA,
    new_mem: &M,
    root: u64,
    width: PhysWidth,
    path: Seq<usize>,
)
    requires
        shape_inv(shape, fa, mem, root, width),
        grows(shape, fa, mem, new_shape, new_fa, new_mem),
        valid_path(path),
    ensures
        table_by_path(mem, root, width, path) is Some ==> table_by_path(
            new_mem,
            root,
            width,
            path,
        ) == table_by_path(mem, root, width, path),
{
    let at_three = via(mem, width, Some(root), path[0], PagingLevel::Four);
    let at_two = via(mem, width, at_three, path[1], PagingLevel::Three);
    let at_one = via(mem, width, at_two, path[2], PagingLevel::Two);
    if path.len() >= 1 && at_three is Some {
        assert(new_mem.entry(root, path[0]) == mem.entry(root, path[0]));
        if path.len() >= 2 && at_two is Some {
            assert(shape.dom().contains(at_three->0));
            assert(new_mem.entry(at_three->0, path[1]) == mem.entry(at_three->0, path[1]));
            if path.len() >= 3 && at_one is Some {
                assert(shape.dom().contains(at_two->0));
                assert(new_mem.entry(at_two->0, path[2]) == mem.entry(at_two->0, path[2]));
            }
        }
    }
}

/// A hierarchy stays valid while frames are taken from its allocator
/// beside it: no table of the hierarchy becomes free by that.
pub proof fn lemma_allocation_keeps_hierarchy<FA: FrameAllocator, M: TableMemory>(
    shape: Shape,
    fa: &FA,
    later: &FA,
    mem: &M,
    root: u64,
    width: PhysWidth,
)
    requires
        hierarchy_inv(shape, fa, mem, root, width),
        later.inv(),
        forall|pfn: u64| later.manages(pfn) == fa.manages(pfn),
        forall|pfn: u64| #[trigger] later.is_free(pfn) ==> fa.is_free(pfn),
    ensures
        hierarchy_inv(shape, later, mem, root, width),
{
}

/// A hierarchy that grew twice has grown.
pub proof fn lemma_grows_twice<FA: FrameAllocator, M: TableMemory>(
    shape0: Shape,
    fa0: &FA,
    mem0: &M,
    shape1: Shape,
    fa1: &FA,
    mem1: &M,
    shape2: Shape,
    fa2: &FA,
    mem2: &M,
)
    requires
        grows(shape0, fa0, mem0, shape1, fa1, mem1),
        grows(shape1, fa1, mem1, shape2, fa2, mem2),
    ensures
        grows(shape0, fa0, mem0, shape2, fa2, mem2),
{
    assert forall|t: u64, i: usize|
        #![trigger mem2.entry(t, i)]
        shape0.dom().contains(t) && i < ENTRIES && has_bit(
            mem0.entry(t, i),
            BIT_PRESENT,
        ) implies mem2.entry(t, i) == mem0.entry(t, i) by {
        assert(mem1.entry(t, i) == mem0.entry(t, i));
    }
}

/// A walk that went on after another, for the same page, has done what
/// both did.
pub proof fn lemma_extends_twice<FA: FrameAllocator, M: TableMemory>(
    shape0: Shape,
    fa0: &FA,
    mem0: &M,
    shape1: Shape,
    fa1: &FA,
    mem1: &M,
    shape2: Shape,
    fa2: &FA,
    mem2: &M,
    vpn: u64,
    reached: PagingLevel,
    level: PagingLevel,
    leaf: Option<u64>,
)
    requires
        level.spec_number() <= reached.spec_number(),
        extends(shape0, fa0, mem0, shape1, fa1, mem1, vpn, reached, None),
        extends(shape1, fa1, mem1, shape2, fa2, mem2, vpn, level, leaf),
    ensures
        extends(shape0, fa0, mem0, shape2, fa2, mem2, vpn, level, leaf),
{
    lemma_grows_twice(shape0, fa0, mem0, shape1, fa1, mem1, shape2, fa2, mem2);
    assert forall|t: u64, i: usize|
        #![trigger mem2.entry(t, i)]
        shape2.dom().contains(t) && i < ENTRIES && mem2.entry(t, i) != (if shape0.dom().contains(
            t,
        ) {
            mem0.entry(t, i)
        } else {
            0
        }) implies written_by_walk(shape2[t], i, mem2.entry(t, i), vpn, level, leaf) && (
    shape0.dom().contains(t) ==> !has_bit(mem0.entry(t, i), BIT_PRESENT)) by {
        if shape1.dom().contains(t) {
            let first = mem1.entry(t, i);
            if mem2.entry(t, i) == first {
                assert(written_by_walk(shape1[t], i, first, vpn, reached, None));
            }
        }
    }
}

/// Pages whose walks go the same way read the same entries on it.
pub proof fn lemma_same_way_same_entries<M: TableMemory>(
    mem: &M,
    root: u64,
    width: PhysWidth,
    a: u64,
    b: u64,
    level: PagingLevel,
    at: PagingLevel,
)
    requires
        !(level is Five),
        !(at is Five),
        level.spec_number() <= at.spec_number(),
        same_way(a, b, level),
    ensures
        same_way(a, b, at),
        index_at(a, at) == index_at(b, at),
        table_at(mem, root, width, a, at) == table_at(mem, root, width, b, at),
        entry_at(mem, root, width, a, at) == entry_at(mem, root, width, b, at),
{
    let d = depth_of(level) + 1;
    let pa = path_of(a, d as nat);
    let pb = path_of(b, d as nat);
    assert(index_at(a, PagingLevel::Four) == index_at(b, PagingLevel::Four)) by {
        assert(level_at_depth(0) == PagingLevel::Four);
        assert(pa[0] == pb[0]);
    }
    if depth_of(level) >= 1 {
        assert(level_at_depth(1) == PagingLevel::Three);
        assert(pa[1] == pb[1]);
        assert(index_at(a, PagingLevel::Three) == index_at(b, PagingLevel::Three));
    }
    if depth_of(level) >= 2 {
        assert(level_at_depth(2) == PagingLevel::Two);
        assert(pa[2] == pb[2]);
        assert(index_at(a, PagingLevel::Two) == index_at(b, PagingLevel::Two));
    }
    if depth_of(level) >= 3 {
        assert(level_at_depth(3) == PagingLevel::One);
        assert(pa[3] == pb[3]);
        assert(index_at(a, PagingLevel::One) == index_at(b, PagingLevel::One));
    }
    assert(path_of(a, (depth_of(at) + 1) as nat) =~= path_of(b, (depth_of(at) + 1) as nat));
}

/// While a hierarchy grows, a walk reads the present entries that it read
/// before.
pub proof fn lemma_entries_kept<FA: FrameAllocator, M: TableMemory>(
    shape: Shape,
    fa: &FA,
    mem: &M,
    new_shape: Shape,
    new_fa: &FA,
    new_mem: &M,
    root: u64,
    width: PhysWidth,
    v: u64,
    at: PagingLevel,
)
    requires
        shape_inv(shape, fa, mem, root, width),
        grows(shape, fa, mem, new_shape, new_fa, new_mem),
    ensures
        entry_at(mem, root, width, v, at) matches Some(raw) && has_bit(raw, BIT_PRESENT)
            ==> entry_at(new_mem, root, width, v, at) == entry_at(mem, root, width, v, at),
{
    lemma_index_at_range(v, at);
    lemma_table_at_known(shape, fa, mem, root, width, v, at);
    lemma_tables_kept(shape, fa, mem, new_shape, new_fa, new_mem, root, width, v, at);
}

/// After a walk for page `vpn`, a present entry that a walk reads was read
/// before, or it lies on the way of `vpn` and was written by the walk.
pub proof fn lemma_entries_written<FA: FrameAllocator, M: TableMemory>(
    shape: Shape,
    fa: &FA,
    mem: &M,
    new_shape: Shape,
    new_fa: &FA,
    new_mem: &M,
    root: u64,
    width: PhysWidth,
    vpn: u64,
    level: PagingLevel,
    leaf: Option<u64>,
    v: u64,
    at: PagingLevel,
)
    requires
        shape_inv(shape, fa, mem, root, width),
        shape_inv(new_shape, new_fa, new_mem, root, width),
        extends(shape, fa, mem, new_shape, new_fa, new_mem, vpn, level, leaf),
        !(at is Five),
    ensures
        entry_at(new_mem, root, width, v, at) matches Some(raw) ==> has_bit(raw, BIT_PRESENT)
            ==> entry_at(mem, root, width, v, at) == Some(raw) || (same_way(v, vpn, at)
            && written_by_walk(path_of(vpn, depth_of(at)), index_at(vpn, at), raw, vpn, level, leaf)),
{
    lemma_index_at_range(v, at);
    lemma_zero_entry();
    lemma_path_of_push(v, at);
    lemma_path_of_push(vpn, at);
    lemma_table_at_known(new_shape, new_fa, new_mem, root, width, v, at);
    lemma_table_at_by_path(mem, root, width, v, at);
    assert(level_at_depth(depth_of(at)) == at);
}

/// What a walk for page `vpn` toward a leaf of `level` does to the
/// translation of a page.
pub proof fn lemma_translation_after_walk<FA: FrameAllocator, M: TableMemory>(
    shape: Shape,
    fa: &FA,
    mem: &M,
    new_shape: Shape,
    new_fa: &FA,
    new_mem: &M,
    root: u64,
    width: PhysWidth,
    vpn: u64,
    level: PagingLevel,
    leaf: Option<u64>,
    v: u64,
)
    requires
        level is Three || level is Two || level is One,
        shape_inv(shape, fa, mem, root, width),
        shape_inv(new_shape, new_fa, new_mem, root, width),
        extends(shape, fa, mem, new_shape, new_fa, new_mem, vpn, level, leaf),
        leaf matches Some(raw) ==> entry_at(new_mem, root, width, vpn, level) == Some(raw),
    ensures
        translate(new_mem, root, width, v) == translation_after(
            translate(mem, root, width, v),
            vpn,
            level,
            leaf,
            v,
        ),
{
    let three = PagingLevel::Three;
    let two = PagingLevel::Two;
    let one = PagingLevel::One;
    lemma_entries_kept(shape, fa, mem, new_shape, new_fa, new_mem, root, width, v, three);
    lemma_entries_kept(shape, fa, mem, new_shape, new_fa, new_mem, root, width, v, two);
    lemma_entries_kept(shape, fa, mem, new_shape, new_fa, new_mem, root, width, v, one);
    lemma_entries_written(shape, fa, mem, new_shape, new_fa, new_mem, root, width, vpn, level, leaf, v, three);
    lemma_entries_written(shape, fa, mem, new_shape, new_fa, new_mem, root, width, vpn, level, leaf, v, two);
    lemma_entries_written(shape, fa, mem, new_shape, new_fa, new_mem, root, width, vpn, level, leaf, v, one);
    assert(level_at_depth(1) == three && level_at_depth(2) == two && level_at_depth(3) == one);
    lemma_path_of_push(vpn, three);
    lemma_path_of_push(vpn, two);
    lemma_path_of_push(vpn, one);
    if same_way(v, vpn, level) {
        lemma_same_way_same_entries(new_mem, root, width, v, vpn, level, level);
        lemma_same_way_same_entries(new_mem, root, width, v, vpn, level, three);
        if !(level is Three) {
            lemma_same_way_same_entries(new_mem, root, width, v, vpn, level, two);
        }
    } else {
        if same_way(v, vpn, one) {
            lemma_same_way_same_entries(new_mem, root, width, v, vpn, one, level);
        }
        if same_way(v, vpn, two) && !(level is One) {
            lemma_same_way_same_entries(new_mem, root, width, v, vpn, two, level);
        }
    }
}

/// Where a walk arrives at a table the tables lead to it.
pub proof fn lemma_arrived_is_complete<M: TableMemory>(
    mem: &M,
    root: u64,
    width: PhysWidth,
    vpn: u64,
    level: PagingLevel,
)
    requires
        !(level is Five),
    ensures
        table_at(mem, root, width, vpn, level) matches Some(t) ==> path_state(
            mem,
            root,
            width,
            vpn,
            level,
        ) == PathState::Complete(t),
{
}

/// In memories that hold the same tables the tables lead as far.
pub proof fn lemma_same_path_state<M: TableMemory>(
    mem: &M,
    other: &M,
    root: u64,
    width: PhysWidth,
    v: u64,
    level: PagingLevel,
)
    requires
        same_entries(other, mem),
    ensures
        path_state(other, root, width, v, level) == path_state(mem, root, width, v, level),
        path_state(mem, root, width, v, level) matches PathState::Complete(t) ==> other.entry(
            t,
            index_at(v, level),
        ) == mem.entry(t, index_at(v, level)),
{
    lemma_index_at_range(v, level);
    lemma_index_at_range(v, PagingLevel::Four);
    lemma_index_at_range(v, PagingLevel::Three);
    lemma_index_at_range(v, PagingLevel::Two);
    lemma_index_at_range(v, PagingLevel::One);
}

/// Memories that hold the same tables translate alike.
pub proof fn lemma_same_translation<M: TableMemory>(
    mem: &M,
    other: &M,
    root: u64,
    width: PhysWidth,
    v: u64,
)
    requires
        same_entries(other, mem),
    ensures
        translate(other, root, width, v) == translate(mem, root, width, v),
{
    lemma_index_at_range(v, PagingLevel::Four);
    lemma_index_at_range(v, PagingLevel::Three);
    lemma_index_at_range(v, PagingLevel::Two);
    lemma_index_at_range(v, PagingLevel::One);
}

/// A leaf is made only where none of the pages that it maps was mapped
/// before.
pub proof fn lemma_written_leaf_was_unmapped<M: TableMemory>(
    mem: &M,
    root: u64,
    width: PhysWidth,
    vpn: u64,
    pfn: u64,
    offset: u16,
    flags: LeafFlags,
    level: PagingLevel,
    result: Result<u64, Error>,
    v: u64,
)
    requires
        map_leaf_outcome(mem, root, width, vpn, pfn, offset, flags, level, result),
        result is Ok,
        same_way(v, vpn, level),
    ensures
        translate(mem, root, width, v) is None,
{
    lemma_same_way_same_entries(mem, root, width, v, vpn, level, PagingLevel::Four);
    lemma_same_way_same_entries(mem, root, width, v, vpn, level, PagingLevel::Three);
    if !(level is Three) {
        lemma_same_way_same_entries(mem, root, width, v, vpn, level, PagingLevel::Two);
        if !(level is Two) {
            lemma_same_way_same_entries(mem, root, width, v, vpn, level, PagingLevel::One);
        }
    }
}

/// A leaf off the boundary of its page size is refused: no call of
/// `map_leaf` with such an address succeeds, and where the tables lead to
/// an entry that is free the error is `MisalignedAddress`.
pub proof fn lemma_misaligned_is_refused<M: TableMemory>(
    mem: &M,
    root: u64,
    width: PhysWidth,
    vpn: u64,
    pfn: u64,
    offset: u16,
    flags: LeafFlags,
    level: PagingLevel,
    result: Result<u64, Error>,
)
    requires
        level is Three || level is Two || level is One,
        !va_aligned(vpn, level) || !pa_aligned(pfn, offset, level),
        map_leaf_outcome(mem, root, width, vpn, pfn, offset, flags, level, result),
    ensures
        result is Err,
        path_state(mem, root, width, vpn, level) matches PathState::Complete(t) && !has_bit(
            mem.entry(t, index_at(vpn, level)),
            BIT_PRESENT,
        ) ==> result == Err::<u64, Error>(Error::MisalignedAddress),
{
}

/// A leaf off the boundary of its page size is refused with
/// `MisalignedAddress` where tables on its way are missing and the
/// allocator has a free frame for each of them.
pub proof fn lemma_misaligned_where_tables_are_missing<FA: FrameAllocator, M: TableMemory>(
    fa: &FA,
    mem: &M,
    root: u64,
    width: PhysWidth,
    vpn: u64,
    pfn: u64,
    offset: u16,
    flags: LeafFlags,
    level: PagingLevel,
    result: Result<u64, Error>,
)
    requires
        level is Three || level is Two || level is One,
        !va_aligned(vpn, level) || !pa_aligned(pfn, offset, level),
        map_leaf_outcome(mem, root, width, vpn, pfn, offset, flags, level, result),
        (result == Err::<u64, Error>(Error::TableAllocation)) == fewer_free_than(
            fa,
            missing_tables(mem, root, width, vpn, level),
        ),
        path_state(mem, root, width, vpn, level) is Missing,
        !fewer_free_than(fa, missing_tables(mem, root, width, vpn, level)),
    ensures
        result == Err::<u64, Error>(Error::MisalignedAddress),
{
}

/// A leaf on the boundary of its page size whose place is free is made
/// where the allocator has a free frame for each table that is missing on
/// its way.
pub proof fn lemma_leaf_is_made<FA: FrameAllocator, M: TableMemory>(
    fa: &FA,
    mem: &M,
    root: u64,
    width: PhysWidth,
    vpn: u64,
    pfn: u64,
    offset: u16,
    flags: LeafFlags,
    level: PagingLevel,
    result: Result<u64, Error>,
)
    requires
        level is Three || level is Two || level is One,
        va_aligned(vpn, level),
        pa_aligned(pfn, offset, level),
        map_leaf_outcome(mem, root, width, vpn, pfn, offset, flags, level, result),
        (result == Err::<u64, Error>(Error::TableAllocation)) == fewer_free_than(
            fa,
            missing_tables(mem, root, width, vpn, level),
        ),
        !in_use(mem, root, width, vpn, level),
        !fewer_free_than(fa, missing_tables(mem, root, width, vpn, level)),
    ensures
        result == Ok::<u64, Error>(leaf_entry(pfn, flags, level)),
{
}

} // verus!
