//! The walk through the table hierarchy that both mappers share: the steps
//! that read and extend the tables.

use super::builder::{
    directory_entry, leaf_entry, lemma_aligned_is_small, lemma_directory_entry_reads_back,
    lemma_leaf_entry_is_no_directory, lemma_small_is_aligned, page_aligned, view_or_builder,
    DirectoryBuilder, EntryBuilder, ViewOrBuilder, MASK_1GIB, MASK_2MIB,
};
use super::mapper::{Error, HelperStats};
use super::model::{
    depth_of, entry_at, extends, grows, hierarchy_inv, in_use, index_at, leaf_outcome,
    lemma_arrived_is_complete, lemma_extends_twice, lemma_grows_twice, lemma_index_at_range,
    lemma_paths_kept, lemma_same_path_state, lemma_same_translation, lemma_table_at_known,
    lemma_tables_kept, lemma_translation_after_walk, lemma_written_leaf_was_unmapped,
    level_at_depth, lower_level, map_leaf_outcome, missing_tables, outcome_of, pa_aligned, path_of,
    path_state, refusal, same_entries, same_frames, same_way, shape_inv, table_at, table_by_path,
    translate, translation_after, unchanged, va_aligned, written, PathState, Shape,
};
use super::range::{
    chunk_level, chunk_pages, greedy_stats, leaf_boundary, lemma_made_for_leaf, lemma_made_for_more,
    lemma_same_way_is_same_page, lemma_upto_keeps_mapped, lemma_upto_step,
    lemma_walk_leaves_later_places, made_for_range, range_translation, range_translation_upto,
    refused_at, stopped_at, table_bound, PAGES_IN_1GIB, PAGES_IN_2MIB, PAGES_IN_FOUR_LEVELS,
};
use crate::common::{PagingLevel, PhysAddr, PhysWidth, VirtAddr};
use crate::mmu::memory::{TableMemory, ENTRIES};
use crate::mmu::paging::{has_bit, CommonMappedEntry, PageTable, PageTableEntry, BIT_PRESENT};
use crate::mmu::view::{
    directory_target, entry_is_directory, entry_is_leaf, lemma_zero_entry, DirectoryFlags,
    EntryView, LeafFlags, PagingAttributesViewer,
};
use crate::pmm::{
    fewer_free_than, frames_taken, free_frames, lemma_all_taken, lemma_none_left, lemma_some_taken,
    lemma_taken_after, lemma_taken_next, no_frame_free, FrameAllocator,
};
use vstd::prelude::*;

verus! {

/// A frame from the allocator with all its entries cleared, to hold a new
/// table; nothing where the allocator has no free frame, and only there.
pub fn alloc_zeroed_table<FA: FrameAllocator, M: TableMemory>(
    fa: &mut FA,
    mem: &mut M,
    width: PhysWidth,
) -> (table: Option<PhysAddr<PageTable>>)
    requires
        old(fa).inv(),
        old(mem).inv(),
        forall|pfn: u64| old(fa).manages(pfn) ==> width.spec_is_pfn_valid(pfn),
    ensures
        final(fa).inv(),
        final(mem).inv(),
        forall|pfn: u64| final(fa).manages(pfn) == old(fa).manages(pfn),
        table is None ==> same_entries(final(mem), old(mem)) && forall|pfn: u64|
            final(fa).is_free(pfn) == old(fa).is_free(pfn),
        table is None <==> no_frame_free(old(fa)),
        table matches Some(t) ==> {
            &&& t.wf()
            &&& t.spec_offset() == 0
            &&& t.spec_width() == width
            &&& old(fa).is_free(t.spec_pfn())
            &&& !final(fa).is_free(t.spec_pfn())
            &&& forall|pfn: u64|
                pfn != t.spec_pfn() ==> final(fa).is_free(pfn) == old(fa).is_free(pfn)
            &&& forall|pfn: u64, i: usize|
                #![trigger final(mem).entry(pfn, i)]
                i < ENTRIES ==> final(mem).entry(pfn, i) == if pfn == t.spec_pfn() {
                    0
                } else {
                    old(mem).entry(pfn, i)
                }
        },
{
    let frame = fa.allocate_frame::<PageTable>(width);
    zero_allocated(mem, frame)
}

/// What becomes of the answer of the allocator: a frame that it gave is
/// handed on with all its entries cleared, and where it gave none nothing
/// is handed on and nothing is written.
pub fn zero_allocated<M: TableMemory>(mem: &mut M, frame: Option<PhysAddr<PageTable>>) -> (table:
    Option<PhysAddr<PageTable>>)
    requires
        old(mem).inv(),
    ensures
        final(mem).inv(),
        table == frame,
        frame is None ==> same_entries(final(mem), old(mem)),
        frame matches Some(t) ==> forall|pfn: u64, i: usize|
            #![trigger final(mem).entry(pfn, i)]
            i < ENTRIES ==> final(mem).entry(pfn, i) == if pfn == t.spec_pfn() {
                0
            } else {
                old(mem).entry(pfn, i)
            },
{
    match frame {
        Some(pt) => {
            mem.zero_table(&pt);
            Some(pt)
        },
        None => None,
    }
}

/// The entry of the table at `index_table`, a table of `level`, at which
/// `va` is looked up.
pub fn get_entry<'m, M: TableMemory>(
    mem: &'m mut M,
    index_table: &PhysAddr<PageTable>,
    va: &VirtAddr<false, ()>,
    level: PagingLevel,
) -> (entry: &'m mut PageTableEntry)
    requires
        old(mem).inv(),
        !(level is Five),
    ensures
        final(mem).inv(),
        index_at(va.spec_vpn(), level) < ENTRIES,
        entry.0 == old(mem).entry(index_table.spec_pfn(), index_at(va.spec_vpn(), level)),
        forall|pfn: u64, i: usize|
            #![trigger final(mem).entry(pfn, i)]
            i < ENTRIES ==> final(mem).entry(pfn, i) == if pfn == index_table.spec_pfn() && i
                == index_at(va.spec_vpn(), level) {
                final(entry).0
            } else {
                old(mem).entry(pfn, i)
            },
{
    mem.entry_mut(index_table, va.level_index(level))
}

/// The table below the table at `index_table`, a table of `level`, on the
/// way of `va`: the one that the entry for `va` points to, or a new one,
/// empty, which the entry is made to point to with the most permissive
/// flags.
///
/// The step fails with `EntryInUse` where the entry maps a page, and with
/// `TableAllocation` where it is not present and the allocator has no
/// frame; a failed step changes nothing.
pub(crate) fn next_table<FA: FrameAllocator, M: TableMemory>(
    fa: &mut FA,
    mem: &mut M,
    shape: &mut Ghost<Shape>,
    Ghost(root): Ghost<u64>,
    width: PhysWidth,
    level: PagingLevel,
    index_table: &PhysAddr<PageTable>,
    va: &VirtAddr<false, ()>,
) -> (next: Result<PhysAddr<PageTable>, Error>)
    requires
        hierarchy_inv(old(shape)@, old(fa), old(mem), root, width),
        level is Four || level is Three || level is Two,
        old(shape)@.dom().contains(index_table.spec_pfn()),
        old(shape)@[index_table.spec_pfn()] == path_of(va.spec_vpn(), depth_of(level)),
    ensures
        hierarchy_inv(final(shape)@, final(fa), final(mem), root, width),
        extends(
            old(shape)@,
            old(fa),
            old(mem),
            final(shape)@,
            final(fa),
            final(mem),
            va.spec_vpn(),
            lower_level(level),
            None,
        ),
        ({
            let index = index_at(va.spec_vpn(), level);
            let before = old(mem).entry(index_table.spec_pfn(), index);
            let after = final(mem).entry(index_table.spec_pfn(), index);
            match next {
                Ok(table) => {
                    &&& table.wf()
                    &&& table.spec_offset() == 0
                    &&& table.spec_width() == width
                    &&& final(shape)@.dom().contains(table.spec_pfn())
                    &&& final(shape)@[table.spec_pfn()] == path_of(
                        va.spec_vpn(),
                        depth_of(level) + 1,
                    )
                    &&& entry_is_directory(after, level)
                    &&& directory_target(after, width) == table.spec_pfn()
                    &&& !entry_is_leaf(before, level)
                    &&& has_bit(before, BIT_PRESENT) ==> same_entries(final(mem), old(mem))
                        && same_frames(final(fa), old(fa)) && final(shape)@ == old(shape)@
                    &&& !has_bit(before, BIT_PRESENT) ==> forall|i: usize|
                        i < ENTRIES ==> final(mem).entry(table.spec_pfn(), i) == 0
                    &&& !has_bit(before, BIT_PRESENT) ==> after == directory_entry(
                        table.spec_pfn(),
                        DirectoryFlags::permissive(),
                    )
                    &&& !has_bit(before, BIT_PRESENT) ==> old(fa).is_free(table.spec_pfn())
                        && !final(fa).is_free(table.spec_pfn()) && forall|pfn: u64|
                        pfn != table.spec_pfn() ==> final(fa).is_free(pfn) == old(fa).is_free(pfn)
                },
                Err(error) => {
                    &&& same_entries(final(mem), old(mem))
                    &&& same_frames(final(fa), old(fa))
                    &&& final(shape)@ == old(shape)@
                    &&& if entry_is_leaf(before, level) {
                        error == Error::EntryInUse
                    } else {
                        error == Error::TableAllocation && !has_bit(before, BIT_PRESENT)
                    }
                },
            }
        }),
        next == Err::<PhysAddr<PageTable>, Error>(Error::TableAllocation) ==> no_frame_free(final(fa)),
{
    let pte = get_entry(mem, index_table, va, level);
    match view_or_builder::<false>(pte, level, false) {
        Some(ViewOrBuilder::View(EntryView::Directory(view))) => {
            let target = view.get_pointed_physical_address(width);
            proof {
                assert(path_of(va.spec_vpn(), depth_of(level) + 1) == path_of(
                    va.spec_vpn(),
                    depth_of(level),
                ).push(index_at(va.spec_vpn(), level)));
            }
            return Ok(target);
        },
        Some(ViewOrBuilder::View(EntryView::Leaf(_))) => {
            return Err(Error::EntryInUse);
        },
        Some(ViewOrBuilder::Builder(_)) => {},
        None => {
            return Err(Error::InvalidLevel);
        },
    }
    let new_pt = match alloc_zeroed_table(fa, mem, width) {
        Some(new_pt) => new_pt,
        None => {
            return Err(Error::TableAllocation);
        },
    };
    let pte = get_entry(mem, index_table, va, level);
    let builder = DirectoryBuilder { result: pte };
    let flags = DirectoryFlags::default();
    let _ = builder.finalize(new_pt.clone(), &flags);
    proof {
        let index = index_at(va.spec_vpn(), level);
        let parent = index_table.spec_pfn();
        let child = new_pt.spec_pfn();
        lemma_zero_entry();
        lemma_directory_entry_reads_back(child, flags, width, level);
        assert(!old(shape)@.dom().contains(child));
        *shape = Ghost(shape@.insert(child, shape@[parent].push(index)));
        assert(path_of(va.spec_vpn(), depth_of(level) + 1) == path_of(
            va.spec_vpn(),
            depth_of(level),
        ).push(index));
    }
    Ok(new_pt)
}

/// Makes the entry for `va` in the table at `index_table`, a table of
/// `level`, a leaf that maps the page at `addr`. The entry must not be
/// present, and `addr` must start a page of the size of the level; else
/// nothing is written.
pub(crate) fn construct_leaf<M: TableMemory>(
    mem: &mut M,
    addr: PhysAddr<()>,
    flags: &LeafFlags,
    level: PagingLevel,
    index_table: &PhysAddr<PageTable>,
    va: &VirtAddr<false, ()>,
) -> (leaf: Result<CommonMappedEntry, Error>)
    requires
        old(mem).inv(),
        level is One || level is Two || level is Three,
    ensures
        final(mem).inv(),
        ({
            let index = index_at(va.spec_vpn(), level);
            let before = old(mem).entry(index_table.spec_pfn(), index);
            &&& outcome_of(leaf) == leaf_outcome(
                has_bit(before, BIT_PRESENT),
                true,
                addr.spec_offset() == 0 && page_aligned(addr.spec_pfn(), level),
                leaf_entry(addr.spec_pfn(), *flags, level),
            )
            &&& leaf is Err ==> same_entries(final(mem), old(mem))
            &&& leaf matches Ok(entry) ==> forall|pfn: u64, i: usize|
                #![trigger final(mem).entry(pfn, i)]
                i < ENTRIES ==> final(mem).entry(pfn, i) == if pfn == index_table.spec_pfn()
                    && i == index {
                    entry.0
                } else {
                    old(mem).entry(pfn, i)
                }
        }),
{
    let pte = get_entry(mem, index_table, va, level);
    match view_or_builder::<false>(pte, level, true) {
        Some(ViewOrBuilder::View(_)) => Err(Error::EntryInUse),
        Some(ViewOrBuilder::Builder(EntryBuilder::Leaf(leaf))) => {
            match leaf.finalize(addr, flags) {
                Some(view) => Ok(CommonMappedEntry(view.get_raw_underlying())),
                None => Err(Error::MisalignedAddress),
            }
        },
        _ => Err(Error::InvalidLevel),
    }
}

/// What holds in the middle of a walk that has arrived at the table in
/// frame `table`, a table of level `reached`.
pub open spec fn walked<FA: FrameAllocator, M: TableMemory>(
    old_shape: Shape,
    old_fa: &FA,
    old_mem: &M,
    shape: Shape,
    fa: &FA,
    mem: &M,
    root: u64,
    width: PhysWidth,
    vpn: u64,
    reached: PagingLevel,
    table: u64,
) -> bool {
    &&& hierarchy_inv(shape, fa, mem, root, width)
    &&& extends(old_shape, old_fa, old_mem, shape, fa, mem, vpn, reached, None)
    &&& shape.dom().contains(table)
    &&& shape[table] == path_of(vpn, depth_of(reached))
    &&& table_at(mem, root, width, vpn, reached) == Some(table)
    &&& match path_state(old_mem, root, width, vpn, reached) {
        PathState::Complete(t) => t == table && unchanged(old_shape, old_fa, old_mem, shape, fa, mem),
        PathState::Missing => forall|i: usize| i < ENTRIES ==> mem.entry(table, i) == 0,
        PathState::Blocked => false,
    }
}

/// A step that succeeds takes the walk one level down.
proof fn lemma_walked_step<FA: FrameAllocator, M: TableMemory>(
    old_shape: Shape,
    old_fa: &FA,
    old_mem: &M,
    shape: Shape,
    fa: &FA,
    mem: &M,
    new_shape: Shape,
    new_fa: &FA,
    new_mem: &M,
    root: u64,
    width: PhysWidth,
    vpn: u64,
    reached: PagingLevel,
    table: u64,
    next: u64,
)
    requires
        reached is Four || reached is Three || reached is Two,
        walked(old_shape, old_fa, old_mem, shape, fa, mem, root, width, vpn, reached, table),
        hierarchy_inv(new_shape, new_fa, new_mem, root, width),
        extends(shape, fa, mem, new_shape, new_fa, new_mem, vpn, lower_level(reached), None),
        new_shape.dom().contains(next),
        new_shape[next] == path_of(vpn, depth_of(reached) + 1),
        ({
            let before = mem.entry(table, index_at(vpn, reached));
            let after = new_mem.entry(table, index_at(vpn, reached));
            &&& entry_is_directory(after, reached)
            &&& directory_target(after, width) == next
            &&& !entry_is_leaf(before, reached)
            &&& has_bit(before, BIT_PRESENT) ==> unchanged(shape, fa, mem, new_shape, new_fa, new_mem)
            &&& !has_bit(before, BIT_PRESENT) ==> forall|i: usize|
                i < ENTRIES ==> new_mem.entry(next, i) == 0
        }),
    ensures
        walked(
            old_shape,
            old_fa,
            old_mem,
            new_shape,
            new_fa,
            new_mem,
            root,
            width,
            vpn,
            lower_level(reached),
            next,
        ),
{
    lemma_index_at_range(vpn, PagingLevel::Four);
    lemma_index_at_range(vpn, PagingLevel::Three);
    lemma_index_at_range(vpn, PagingLevel::Two);
    lemma_zero_entry();
    lemma_table_at_known(shape, fa, mem, root, width, vpn, reached);
    lemma_tables_kept(shape, fa, mem, new_shape, new_fa, new_mem, root, width, vpn, reached);
    lemma_extends_twice(
        old_shape,
        old_fa,
        old_mem,
        shape,
        fa,
        mem,
        new_shape,
        new_fa,
        new_mem,
        vpn,
        reached,
        lower_level(reached),
        None,
    );
}

/// A walk that stops at a step that failed ends as `map_leaf_outcome` says.
proof fn lemma_walked_stop<FA: FrameAllocator, M: TableMemory>(
    old_shape: Shape,
    old_fa: &FA,
    old_mem: &M,
    shape: Shape,
    fa: &FA,
    mem: &M,
    new_shape: Shape,
    new_fa: &FA,
    new_mem: &M,
    root: u64,
    width: PhysWidth,
    vpn: u64,
    reached: PagingLevel,
    table: u64,
    error: Error,
    level: PagingLevel,
)
    requires
        reached is Four || reached is Three || reached is Two,
        level is Three || level is Two || level is One,
        level.spec_number() < reached.spec_number(),
        walked(old_shape, old_fa, old_mem, shape, fa, mem, root, width, vpn, reached, table),
        unchanged(shape, fa, mem, new_shape, new_fa, new_mem),
        ({
            let before = mem.entry(table, index_at(vpn, reached));
            if entry_is_leaf(before, reached) {
                error == Error::EntryInUse
            } else {
                error == Error::TableAllocation && !has_bit(before, BIT_PRESENT)
            }
        }),
    ensures
        path_state(old_mem, root, width, vpn, level) is Blocked ==> error == Error::EntryInUse
            && unchanged(old_shape, old_fa, old_mem, new_shape, new_fa, new_mem),
        path_state(old_mem, root, width, vpn, level) is Missing ==> error
            == Error::TableAllocation,
        !(path_state(old_mem, root, width, vpn, level) is Complete),
        error == Error::TableAllocation ==> path_state(new_mem, root, width, vpn, level)
            is Missing,
        error == Error::EntryInUse ==> path_state(new_mem, root, width, vpn, level) is Blocked,
{
    lemma_index_at_range(vpn, PagingLevel::Four);
    lemma_index_at_range(vpn, PagingLevel::Three);
    lemma_index_at_range(vpn, PagingLevel::Two);
    lemma_zero_entry();
    lemma_arrived_is_complete(mem, root, width, vpn, reached);
    lemma_same_path_state(mem, new_mem, root, width, vpn, level);
}

/// A walk that has arrived at the table of the level ends with the leaf as
/// `map_leaf_outcome` says, and leaves a hierarchy in which the walk reads
/// the leaf.
proof fn lemma_walked_leaf<FA: FrameAllocator, M: TableMemory>(
    old_shape: Shape,
    old_fa: &FA,
    old_mem: &M,
    shape: Shape,
    fa: &FA,
    mem: &M,
    new_mem: &M,
    root: u64,
    width: PhysWidth,
    vpn: u64,
    pfn: u64,
    offset: u16,
    flags: LeafFlags,
    level: PagingLevel,
    table: u64,
    leaf: Result<CommonMappedEntry, Error>,
)
    requires
        level is Three || level is Two || level is One,
        walked(old_shape, old_fa, old_mem, shape, fa, mem, root, width, vpn, level, table),
        va_aligned(vpn, level),
        new_mem.inv(),
        ({
            let index = index_at(vpn, level);
            let before = mem.entry(table, index);
            &&& outcome_of(leaf) == leaf_outcome(
                has_bit(before, BIT_PRESENT),
                true,
                pa_aligned(pfn, offset, level),
                leaf_entry(pfn, flags, level),
            )
            &&& leaf is Err ==> same_entries(new_mem, mem)
            &&& leaf matches Ok(entry) ==> forall|p: u64, i: usize|
                #![trigger new_mem.entry(p, i)]
                i < ENTRIES ==> new_mem.entry(p, i) == if p == table && i == index {
                    entry.0
                } else {
                    mem.entry(p, i)
                }
        }),
    ensures
        hierarchy_inv(shape, fa, new_mem, root, width),
        extends(old_shape, old_fa, old_mem, shape, fa, new_mem, vpn, level, written(leaf)),
        map_leaf_outcome(old_mem, root, width, vpn, pfn, offset, flags, level, outcome_of(leaf)),
        leaf matches Ok(entry) ==> entry_at(new_mem, root, width, vpn, level) == Some(entry.0),
        leaf is Err && !(path_state(old_mem, root, width, vpn, level) is Missing) ==> unchanged(
            old_shape,
            old_fa,
            old_mem,
            shape,
            fa,
            new_mem,
        ),
        leaf matches Err(error) ==> refusal(new_mem, root, width, vpn, pfn, offset, level, error),
{
    lemma_index_at_range(vpn, level);
    lemma_zero_entry();
    lemma_arrived_is_complete(mem, root, width, vpn, level);
    if leaf is Err {
        lemma_same_path_state(mem, new_mem, root, width, vpn, level);
    }
    lemma_leaf_entry_is_no_directory(pfn, flags, level);
    assert(path_of(vpn, depth_of(level)).len() == depth_of(level));
    assert(level_at_depth(depth_of(level)) == level);
    assert(extends(shape, fa, mem, shape, fa, new_mem, vpn, level, written(leaf)));
    lemma_tables_kept(shape, fa, mem, shape, fa, new_mem, root, width, vpn, level);
    assert forall|t: u64| #[trigger] shape.dom().contains(t) implies table_by_path(
        new_mem,
        root,
        width,
        shape[t],
    ) == Some(t) by {
        lemma_paths_kept(shape, fa, mem, shape, fa, new_mem, root, width, shape[t]);
    }
    assert(shape_inv(shape, fa, new_mem, root, width));
    lemma_extends_twice(
        old_shape,
        old_fa,
        old_mem,
        shape,
        fa,
        mem,
        shape,
        fa,
        new_mem,
        vpn,
        level,
        level,
        written(leaf),
    );
}

/// The walk of `map_leaf`: from the root table down to the table of the
/// level, making the tables that are missing, and there the leaf.
fn walk_to_leaf<FA: FrameAllocator, M: TableMemory>(
    fa: &mut FA,
    mem: &mut M,
    shape: &mut Ghost<Shape>,
    root: &PhysAddr<PageTable>,
    width: PhysWidth,
    va: VirtAddr<false, ()>,
    pa: PhysAddr<()>,
    flags: &LeafFlags,
    level: PagingLevel,
    taken: &mut Ghost<Seq<u64>>,
) -> (leaf: Result<CommonMappedEntry, Error>)
    requires
        hierarchy_inv(old(shape)@, old(fa), old(mem), root.spec_pfn(), width),
    ensures
        hierarchy_inv(final(shape)@, final(fa), final(mem), root.spec_pfn(), width),
        extends(
            old(shape)@,
            old(fa),
            old(mem),
            final(shape)@,
            final(fa),
            final(mem),
            va.spec_vpn(),
            level,
            written(leaf),
        ),
        map_leaf_outcome(
            old(mem),
            root.spec_pfn(),
            width,
            va.spec_vpn(),
            pa.spec_pfn(),
            pa.spec_offset(),
            *flags,
            level,
            outcome_of(leaf),
        ),
        leaf matches Ok(entry) ==> entry_at(
            final(mem),
            root.spec_pfn(),
            width,
            va.spec_vpn(),
            level,
        ) == Some(entry.0),
        leaf is Err && !(path_state(old(mem), root.spec_pfn(), width, va.spec_vpn(), level)
            is Missing) ==> unchanged(
            old(shape)@,
            old(fa),
            old(mem),
            final(shape)@,
            final(fa),
            final(mem),
        ),
        outcome_of(leaf) == Err::<u64, Error>(Error::TableAllocation) ==> path_state(
            final(mem),
            root.spec_pfn(),
            width,
            va.spec_vpn(),
            level,
        ) is Missing,
        outcome_of(leaf) == Err::<u64, Error>(Error::TableAllocation) ==> no_frame_free(final(fa)),
        leaf matches Err(error) ==> refusal(
            final(mem),
            root.spec_pfn(),
            width,
            va.spec_vpn(),
            pa.spec_pfn(),
            pa.spec_offset(),
            level,
            error,
        ),
        frames_taken(old(fa), final(fa), final(taken)@),
        final(taken)@.len() <= missing_tables(
            old(mem),
            root.spec_pfn(),
            width,
            va.spec_vpn(),
            level,
        ),
        (outcome_of(leaf) == Err::<u64, Error>(Error::TableAllocation)) == (final(taken)@.len()
            < missing_tables(old(mem), root.spec_pfn(), width, va.spec_vpn(), level)),
{
    let ghost mut made: Seq<u64> = Seq::empty();
    proof {
        *taken = Ghost(made);
        lemma_zero_entry();
        lemma_index_at_range(va.spec_vpn(), PagingLevel::Four);
        lemma_index_at_range(va.spec_vpn(), PagingLevel::Three);
        lemma_index_at_range(va.spec_vpn(), PagingLevel::Two);
    }
    if level == PagingLevel::Five || level == PagingLevel::Four {
        return Err(Error::InvalidLevel);
    }
    let ghost vpn = va.spec_vpn();
    let ghost top = root.spec_pfn();
    let ghost shape0 = shape@;
    let ghost fa0 = *fa;
    let ghost mem0 = *mem;
    proof {
        assert(shape@[top] =~= path_of(vpn, 0));
        lemma_zero_entry();
    }
    let ghost before1 = mem.entry(top, index_at(vpn, PagingLevel::Four));
    let pdpt = match next_table(fa, mem, shape, Ghost(top), width, PagingLevel::Four, root, &va) {
        Ok(table) => table,
        Err(error) => {
            proof {
                lemma_walked_stop(
                    shape0,
                    &fa0,
                    &mem0,
                    shape0,
                    &fa0,
                    &mem0,
                    shape@,
                    &*fa,
                    &*mem,
                    top,
                    width,
                    vpn,
                    PagingLevel::Four,
                    top,
                    error,
                    level,
                );
            }
            return Err(error);
        },
    };
    proof {
        lemma_taken_next(
            &fa0,
            &fa0,
            &*fa,
            made,
            if has_bit(before1, BIT_PRESENT) {
                None
            } else {
                Some(pdpt.spec_pfn())
            },
        );
        if !has_bit(before1, BIT_PRESENT) {
            made = made.push(pdpt.spec_pfn());
        }
        *taken = Ghost(made);
        assert(frames_taken(&fa0, &*fa, made));
        assert(made.len() == missing_tables(&mem0, top, width, vpn, PagingLevel::Three));
    }
    let ghost shape1 = shape@;
    let ghost fa1 = *fa;
    let ghost mem1 = *mem;
    proof {
        lemma_walked_step(
            shape0,
            &fa0,
            &mem0,
            shape0,
            &fa0,
            &mem0,
            shape1,
            &fa1,
            &mem1,
            top,
            width,
            vpn,
            PagingLevel::Four,
            top,
            pdpt.spec_pfn(),
        );
    }
    if level == PagingLevel::Three {
        let vpn_bits: u64 = va.vpn();
        if vpn_bits & MASK_1GIB != vpn_bits {
            proof {
                lemma_arrived_is_complete(&*mem, top, width, vpn, level);
            }
            return Err(Error::MisalignedAddress);
        }
        let leaf = construct_leaf(mem, pa, flags, level, &pdpt, &va);
        proof {
            lemma_walked_leaf(
                shape0,
                &fa0,
                &mem0,
                shape1,
                &fa1,
                &mem1,
                &*mem,
                top,
                width,
                vpn,
                pa.spec_pfn(),
                pa.spec_offset(),
                *flags,
                level,
                pdpt.spec_pfn(),
                leaf,
            );
        }
        return leaf;
    }
    let ghost before2 = mem.entry(pdpt.spec_pfn(), index_at(vpn, PagingLevel::Three));
    let pd = match next_table(fa, mem, shape, Ghost(top), width, PagingLevel::Three, &pdpt, &va) {
        Ok(table) => table,
        Err(error) => {
            proof {
                lemma_walked_stop(
                    shape0,
                    &fa0,
                    &mem0,
                    shape1,
                    &fa1,
                    &mem1,
                    shape@,
                    &*fa,
                    &*mem,
                    top,
                    width,
                    vpn,
                    PagingLevel::Three,
                    pdpt.spec_pfn(),
                    error,
                    level,
                );
            }
            return Err(error);
        },
    };
    proof {
        lemma_taken_next(
            &fa0,
            &fa1,
            &*fa,
            made,
            if has_bit(before2, BIT_PRESENT) {
                None
            } else {
                Some(pd.spec_pfn())
            },
        );
        if !has_bit(before2, BIT_PRESENT) {
            made = made.push(pd.spec_pfn());
        }
        *taken = Ghost(made);
        assert(frames_taken(&fa0, &*fa, made));
        assert(made.len() == missing_tables(&mem0, top, width, vpn, PagingLevel::Two));
    }
    let ghost shape2 = shape@;
    let ghost fa2 = *fa;
    let ghost mem2 = *mem;
    proof {
        lemma_walked_step(
            shape0,
            &fa0,
            &mem0,
            shape1,
            &fa1,
            &mem1,
            shape2,
            &fa2,
            &mem2,
            top,
            width,
            vpn,
            PagingLevel::Three,
            pdpt.spec_pfn(),
            pd.spec_pfn(),
        );
    }
    if level == PagingLevel::Two {
        let vpn_bits: u64 = va.vpn();
        if vpn_bits & MASK_2MIB != vpn_bits {
            proof {
                lemma_arrived_is_complete(&*mem, top, width, vpn, level);
            }
            return Err(Error::MisalignedAddress);
        }
        let leaf = construct_leaf(mem, pa, flags, level, &pd, &va);
        proof {
            lemma_walked_leaf(
                shape0,
                &fa0,
                &mem0,
                shape2,
                &fa2,
                &mem2,
                &*mem,
                top,
                width,
                vpn,
                pa.spec_pfn(),
                pa.spec_offset(),
                *flags,
                level,
                pd.spec_pfn(),
                leaf,
            );
        }
        return leaf;
    }
    let ghost before3 = mem.entry(pd.spec_pfn(), index_at(vpn, PagingLevel::Two));
    let pt = match next_table(fa, mem, shape, Ghost(top), width, PagingLevel::Two, &pd, &va) {
        Ok(table) => table,
        Err(error) => {
            proof {
                lemma_walked_stop(
                    shape0,
                    &fa0,
                    &mem0,
                    shape2,
                    &fa2,
                    &mem2,
                    shape@,
                    &*fa,
                    &*mem,
                    top,
                    width,
                    vpn,
                    PagingLevel::Two,
                    pd.spec_pfn(),
                    error,
                    level,
                );
            }
            return Err(error);
        },
    };
    proof {
        lemma_taken_next(
            &fa0,
            &fa2,
            &*fa,
            made,
            if has_bit(before3, BIT_PRESENT) {
                None
            } else {
                Some(pt.spec_pfn())
            },
        );
        if !has_bit(before3, BIT_PRESENT) {
            made = made.push(pt.spec_pfn());
        }
        *taken = Ghost(made);
        assert(frames_taken(&fa0, &*fa, made));
        assert(made.len() == missing_tables(&mem0, top, width, vpn, PagingLevel::One));
    }
    let ghost shape3 = shape@;
    let ghost fa3 = *fa;
    let ghost mem3 = *mem;
    proof {
        lemma_walked_step(
            shape0,
            &fa0,
            &mem0,
            shape2,
            &fa2,
            &mem2,
            shape3,
            &fa3,
            &mem3,
            top,
            width,
            vpn,
            PagingLevel::Two,
            pd.spec_pfn(),
            pt.spec_pfn(),
        );
    }
    let leaf = construct_leaf(mem, pa, flags, level, &pt, &va);
    proof {
        lemma_walked_leaf(
            shape0,
            &fa0,
            &mem0,
            shape3,
            &fa3,
            &mem3,
            &*mem,
            top,
            width,
            vpn,
            pa.spec_pfn(),
            pa.spec_offset(),
            *flags,
            level,
            pt.spec_pfn(),
            leaf,
        );
    }
    leaf
}

/// Maps the page of `va` to the page at `pa` by a leaf of `level`, which
/// must be one, two or three. The walk goes from the root table down to
/// the table of the level and makes the tables that are missing.
pub(crate) fn map_leaf<FA: FrameAllocator, M: TableMemory>(
    fa: &mut FA,
    mem: &mut M,
    shape: &mut Ghost<Shape>,
    root: &PhysAddr<PageTable>,
    width: PhysWidth,
    va: VirtAddr<false, ()>,
    pa: PhysAddr<()>,
    flags: &LeafFlags,
    level: PagingLevel,
    taken: &mut Ghost<Seq<u64>>,
) -> (leaf: Result<CommonMappedEntry, Error>)
    requires
        hierarchy_inv(old(shape)@, old(fa), old(mem), root.spec_pfn(), width),
    ensures
        hierarchy_inv(final(shape)@, final(fa), final(mem), root.spec_pfn(), width),
        extends(
            old(shape)@,
            old(fa),
            old(mem),
            final(shape)@,
            final(fa),
            final(mem),
            va.spec_vpn(),
            level,
            written(leaf),
        ),
        map_leaf_outcome(
            old(mem),
            root.spec_pfn(),
            width,
            va.spec_vpn(),
            pa.spec_pfn(),
            pa.spec_offset(),
            *flags,
            level,
            outcome_of(leaf),
        ),
        leaf matches Ok(entry) ==> entry_at(
            final(mem),
            root.spec_pfn(),
            width,
            va.spec_vpn(),
            level,
        ) == Some(entry.0),
        leaf is Err && !(path_state(old(mem), root.spec_pfn(), width, va.spec_vpn(), level)
            is Missing) ==> unchanged(
            old(shape)@,
            old(fa),
            old(mem),
            final(shape)@,
            final(fa),
            final(mem),
        ),
        outcome_of(leaf) == Err::<u64, Error>(Error::TableAllocation) ==> path_state(
            final(mem),
            root.spec_pfn(),
            width,
            va.spec_vpn(),
            level,
        ) is Missing,
        outcome_of(leaf) == Err::<u64, Error>(Error::TableAllocation) ==> no_frame_free(final(fa)),
        leaf matches Err(error) ==> refusal(
            final(mem),
            root.spec_pfn(),
            width,
            va.spec_vpn(),
            pa.spec_pfn(),
            pa.spec_offset(),
            level,
            error,
        ),
        forall|v: u64|
            #![trigger translate(final(mem), root.spec_pfn(), width, v)]
            translate(final(mem), root.spec_pfn(), width, v) == translation_after(
                translate(old(mem), root.spec_pfn(), width, v),
                va.spec_vpn(),
                level,
                written(leaf),
                v,
            ),
        forall|v: u64|
            #![trigger translate(final(mem), root.spec_pfn(), width, v)]
            translate(old(mem), root.spec_pfn(), width, v) is Some ==> translate(
                final(mem),
                root.spec_pfn(),
                width,
                v,
            ) == translate(old(mem), root.spec_pfn(), width, v),
        frames_taken(old(fa), final(fa), final(taken)@),
        final(taken)@.len() <= missing_tables(
            old(mem),
            root.spec_pfn(),
            width,
            va.spec_vpn(),
            level,
        ),
        (outcome_of(leaf) == Err::<u64, Error>(Error::TableAllocation)) == (final(taken)@.len()
            < missing_tables(old(mem), root.spec_pfn(), width, va.spec_vpn(), level)),
        (outcome_of(leaf) == Err::<u64, Error>(Error::TableAllocation)) == fewer_free_than(
            old(fa),
            missing_tables(old(mem), root.spec_pfn(), width, va.spec_vpn(), level),
        ),
{
    let ghost vpn = va.spec_vpn();
    let ghost shape0 = shape@;
    let ghost fa0 = *fa;
    let ghost mem0 = *mem;
    let leaf = walk_to_leaf(fa, mem, shape, root, width, va, pa, flags, level, taken);
    proof {
        let count = missing_tables(&mem0, root.spec_pfn(), width, vpn, level);
        if outcome_of(leaf) == Err::<u64, Error>(Error::TableAllocation) {
            lemma_all_taken(&fa0, &*fa, taken@, count);
        } else {
            lemma_some_taken(&fa0, taken@, count);
        }
        assert forall|v: u64|
            leaf is Ok && same_way(v, vpn, level) implies #[trigger] translate(
            &mem0,
            root.spec_pfn(),
            width,
            v,
        ) is None by {
            lemma_written_leaf_was_unmapped(
                &mem0,
                root.spec_pfn(),
                width,
                vpn,
                pa.spec_pfn(),
                pa.spec_offset(),
                *flags,
                level,
                outcome_of(leaf),
                v,
            );
        }
        assert forall|v: u64|
            #![trigger translate(&*mem, root.spec_pfn(), width, v)]
            translate(&*mem, root.spec_pfn(), width, v) == translation_after(
                translate(&mem0, root.spec_pfn(), width, v),
                vpn,
                level,
                written(leaf),
                v,
            ) by {
            if level is Four || level is Five {
                lemma_same_translation(&mem0, &*mem, root.spec_pfn(), width, v);
            } else {
                lemma_translation_after_walk(
                    shape0,
                    &fa0,
                    &mem0,
                    shape@,
                    &*fa,
                    &*mem,
                    root.spec_pfn(),
                    width,
                    vpn,
                    level,
                    written(leaf),
                    v,
                );
            }
        }
    }
    leaf
}

/// Whether each place of a leaf from page `from` on that is in use in
/// `mem` was in use in `old_mem`, among the pages that four levels
/// translate.
pub open spec fn later_places_kept<M: TableMemory>(
    old_mem: &M,
    mem: &M,
    root: u64,
    width: PhysWidth,
    from: int,
) -> bool {
    forall|v: u64, at: PagingLevel|
        #![trigger in_use(mem, root, width, v, at)]
        from <= v && v < PAGES_IN_FOUR_LEVELS && (at is Three || at is Two || at is One)
            && va_aligned(v, at) && in_use(mem, root, width, v, at) ==> in_use(
            old_mem,
            root,
            width,
            v,
            at,
        )
}

/// One leaf more of a range: the places of the leaves behind it are as
/// they were.
proof fn lemma_places_step<FA: FrameAllocator, M: TableMemory>(
    mem0: &M,
    shape1: Shape,
    fa1: &FA,
    mem1: &M,
    shape2: Shape,
    fa2: &FA,
    mem2: &M,
    root: u64,
    width: PhysWidth,
    start: u64,
    level: PagingLevel,
    leaf: Option<u64>,
)
    requires
        level is Three || level is Two || level is One,
        hierarchy_inv(shape1, fa1, mem1, root, width),
        hierarchy_inv(shape2, fa2, mem2, root, width),
        extends(shape1, fa1, mem1, shape2, fa2, mem2, start, level, leaf),
        va_aligned(start, level),
        start < PAGES_IN_FOUR_LEVELS,
        later_places_kept(mem0, mem1, root, width, start as int),
    ensures
        later_places_kept(mem0, mem2, root, width, start + chunk_pages(level)),
{
    assert forall|v: u64, at: PagingLevel|
        #![trigger in_use(mem2, root, width, v, at)]
        start + chunk_pages(level) <= v && v < PAGES_IN_FOUR_LEVELS && (at is Three || at is Two
            || at is One) && va_aligned(v, at) && in_use(mem2, root, width, v, at) implies in_use(
        mem0,
        root,
        width,
        v,
        at,
    ) by {
        lemma_walk_leaves_later_places(
            shape1,
            fa1,
            mem1,
            shape2,
            fa2,
            mem2,
            root,
            width,
            start,
            level,
            leaf,
            v,
            at,
        );
        assert(in_use(mem1, root, width, v, at));
    }
}

/// One leaf more of a range: where the rest of the range gave the wanted
/// translations before the leaf was made, the rest without the leaf gives
/// them after.
proof fn lemma_range_step<M: TableMemory>(
    mem0: &M,
    mem1: &M,
    mem2: &M,
    root: u64,
    width: PhysWidth,
    vpn0: u64,
    pfn0: u64,
    pages0: nat,
    vpn: u64,
    pfn: u64,
    pages: nat,
    flags: LeafFlags,
    level: PagingLevel,
)
    requires
        pages > 0,
        level == chunk_level(vpn, pfn, pages),
        forall|v: u64|
            #![trigger translate(mem1, root, width, v)]
            range_translation(translate(mem1, root, width, v), vpn, pfn, pages, flags, v)
                == range_translation(translate(mem0, root, width, v), vpn0, pfn0, pages0, flags, v),
        forall|v: u64|
            #![trigger translate(mem2, root, width, v)]
            translate(mem2, root, width, v) == translation_after(
                translate(mem1, root, width, v),
                vpn,
                level,
                Some(leaf_entry(pfn, flags, level)),
                v,
            ),
    ensures
        forall|v: u64|
            #![trigger translate(mem2, root, width, v)]
            range_translation(
                translate(mem2, root, width, v),
                (vpn + chunk_pages(level)) as u64,
                (pfn + chunk_pages(level)) as u64,
                (pages - chunk_pages(level)) as nat,
                flags,
                v,
            ) == range_translation(translate(mem0, root, width, v), vpn0, pfn0, pages0, flags, v),
{
    assert forall|v: u64|
        #![trigger translate(mem2, root, width, v)]
        range_translation(
            translate(mem2, root, width, v),
            (vpn + chunk_pages(level)) as u64,
            (pfn + chunk_pages(level)) as u64,
            (pages - chunk_pages(level)) as nat,
            flags,
            v,
        ) == range_translation(translate(mem0, root, width, v), vpn0, pfn0, pages0, flags, v) by {
        let before = translate(mem1, root, width, v);
        assert(range_translation(before, vpn, pfn, pages, flags, v) == range_translation(
            translate(mem0, root, width, v),
            vpn0,
            pfn0,
            pages0,
            flags,
            v,
        ));
    }
}

/// One leaf more of a range: where the leaves for the first `done` pages
/// gave the translations before the leaf was made, those for the pages up
/// to the end of the leaf give them after.
proof fn lemma_prefix_step<M: TableMemory>(
    mem0: &M,
    mem1: &M,
    mem2: &M,
    root: u64,
    width: PhysWidth,
    vpn0: u64,
    pfn0: u64,
    pages0: nat,
    done: nat,
    flags: LeafFlags,
    level: PagingLevel,
)
    requires
        done < pages0,
        vpn0 + done <= u64::MAX,
        pfn0 + done <= u64::MAX,
        leaf_boundary(vpn0, pfn0, pages0, done),
        level == chunk_level((vpn0 + done) as u64, (pfn0 + done) as u64, (pages0 - done) as nat),
        forall|v: u64|
            #![trigger translate(mem1, root, width, v)]
            translate(mem1, root, width, v) == range_translation_upto(
                translate(mem0, root, width, v),
                vpn0,
                pfn0,
                pages0,
                done,
                flags,
                v,
            ),
        forall|v: u64|
            #![trigger translate(mem2, root, width, v)]
            translate(mem2, root, width, v) == translation_after(
                translate(mem1, root, width, v),
                (vpn0 + done) as u64,
                level,
                Some(leaf_entry((pfn0 + done) as u64, flags, level)),
                v,
            ),
    ensures
        leaf_boundary(vpn0, pfn0, pages0, done + chunk_pages(level)),
        forall|v: u64|
            #![trigger translate(mem2, root, width, v)]
            translate(mem2, root, width, v) == range_translation_upto(
                translate(mem0, root, width, v),
                vpn0,
                pfn0,
                pages0,
                done + chunk_pages(level),
                flags,
                v,
            ),
{
    lemma_upto_step(None, vpn0, pfn0, pages0, done, flags, 0);
    assert forall|v: u64|
        #![trigger translate(mem2, root, width, v)]
        translate(mem2, root, width, v) == range_translation_upto(
            translate(mem0, root, width, v),
            vpn0,
            pfn0,
            pages0,
            done + chunk_pages(level),
            flags,
            v,
        ) by {
        let before = translate(mem1, root, width, v);
        lemma_upto_step(translate(mem0, root, width, v), vpn0, pfn0, pages0, done, flags, v);
    }
}

/// One leaf more of a range that succeeds: where the pages before the
/// leaf were not mapped before the range, those of the leaf were not
/// either.
proof fn lemma_free_step<M: TableMemory>(
    mem0: &M,
    mem1: &M,
    root: u64,
    width: PhysWidth,
    vpn0: u64,
    pfn0: u64,
    pages0: nat,
    done: nat,
    flags: LeafFlags,
    pfn: u64,
    offset: u16,
    level: PagingLevel,
    result: Result<u64, Error>,
)
    requires
        vpn0 + done <= u64::MAX,
        level is Three || level is Two || level is One,
        forall|v: u64|
            #![trigger translate(mem0, root, width, v)]
            vpn0 <= v < vpn0 + done && v < PAGES_IN_FOUR_LEVELS ==> translate(mem0, root, width, v)
                is None,
        forall|v: u64|
            #![trigger translate(mem1, root, width, v)]
            translate(mem1, root, width, v) == range_translation_upto(
                translate(mem0, root, width, v),
                vpn0,
                pfn0,
                pages0,
                done,
                flags,
                v,
            ),
        map_leaf_outcome(
            mem1,
            root,
            width,
            (vpn0 + done) as u64,
            pfn,
            offset,
            flags,
            level,
            result,
        ),
        result is Ok,
    ensures
        forall|v: u64|
            #![trigger translate(mem0, root, width, v)]
            vpn0 <= v < vpn0 + done + chunk_pages(level) && v < PAGES_IN_FOUR_LEVELS ==> translate(
                mem0,
                root,
                width,
                v,
            ) is None,
{
    let start = (vpn0 + done) as u64;
    assert forall|v: u64|
        #![trigger translate(mem0, root, width, v)]
        vpn0 <= v < vpn0 + done + chunk_pages(level) && v < PAGES_IN_FOUR_LEVELS implies translate(
        mem0,
        root,
        width,
        v,
    ) is None by {
        if v >= start {
            lemma_same_way_is_same_page(v, start, level);
            lemma_written_leaf_was_unmapped(
                mem1,
                root,
                width,
                start,
                pfn,
                offset,
                flags,
                level,
                result,
                v,
            );
            let before = translate(mem1, root, width, v);
            lemma_upto_keeps_mapped(
                translate(mem0, root, width, v),
                vpn0,
                pfn0,
                pages0,
                done,
                flags,
                v,
            );
        }
    }
}

/// A leaf that was refused leaves the translations as they were, so the
/// mapping of the range has stopped before it; and where the tables decided
/// the refusal they were not changed by it, and still say why.
proof fn lemma_range_stop<M: TableMemory>(
    mem0: &M,
    mem1: &M,
    mem2: &M,
    root: u64,
    width: PhysWidth,
    vpn0: u64,
    pfn0: u64,
    offset: u16,
    pages0: nat,
    done: nat,
    flags: LeafFlags,
    level: PagingLevel,
    error: Error,
)
    requires
        done < pages0,
        vpn0 + done <= u64::MAX,
        pfn0 + done <= u64::MAX,
        level is Three || level is Two || level is One,
        level == chunk_level((vpn0 + done) as u64, (pfn0 + done) as u64, (pages0 - done) as nat),
        leaf_boundary(vpn0, pfn0, pages0, done),
        forall|v: u64|
            #![trigger translate(mem1, root, width, v)]
            translate(mem1, root, width, v) == range_translation_upto(
                translate(mem0, root, width, v),
                vpn0,
                pfn0,
                pages0,
                done,
                flags,
                v,
            ),
        forall|v: u64|
            #![trigger translate(mem2, root, width, v)]
            translate(mem2, root, width, v) == translate(mem1, root, width, v),
        map_leaf_outcome(
            mem1,
            root,
            width,
            (vpn0 + done) as u64,
            (pfn0 + done) as u64,
            offset,
            flags,
            level,
            Err(error),
        ),
        !(path_state(mem1, root, width, (vpn0 + done) as u64, level) is Missing) ==> same_entries(
            mem2,
            mem1,
        ),
        refusal(
            mem2,
            root,
            width,
            (vpn0 + done) as u64,
            (pfn0 + done) as u64,
            offset,
            level,
            error,
        ),
        vpn0 + pages0 <= PAGES_IN_FOUR_LEVELS ==> later_places_kept(
            mem0,
            mem1,
            root,
            width,
            vpn0 + done,
        ),
    ensures
        stopped_at(mem0, mem2, root, width, vpn0, pfn0, pages0, flags, done),
        refused_at(mem2, root, width, vpn0, pfn0, offset, pages0, done, error),
        error == Error::EntryInUse && vpn0 + pages0 <= PAGES_IN_FOUR_LEVELS ==> refused_at(
            mem0,
            root,
            width,
            vpn0,
            pfn0,
            offset,
            pages0,
            done,
            error,
        ),
{
    if error == Error::EntryInUse && vpn0 + pages0 <= PAGES_IN_FOUR_LEVELS {
        assert(in_use(mem1, root, width, (vpn0 + done) as u64, level));
    }
    assert forall|v: u64|
        #![trigger translate(mem2, root, width, v)]
        translate(mem2, root, width, v) == range_translation_upto(
            translate(mem0, root, width, v),
            vpn0,
            pfn0,
            pages0,
            done,
            flags,
            v,
        ) by {
        let before = translate(mem1, root, width, v);
        assert(translate(mem2, root, width, v) == before);
    }
    if !(path_state(mem1, root, width, (vpn0 + done) as u64, level) is Missing) {
        lemma_same_path_state(mem1, mem2, root, width, (vpn0 + done) as u64, level);
    }
}

/// Maps `number_of_pages` pages from `va` on to the frames from `pa` on,
/// each time by the largest leaf that the rest of the range holds and on
/// whose boundary both addresses lie. The first leaf that cannot be made
/// ends the mapping; the leaves made before it stay.
pub(crate) fn map_range<FA: FrameAllocator, M: TableMemory>(
    fa: &mut FA,
    mem: &mut M,
    shape: &mut Ghost<Shape>,
    root: &PhysAddr<PageTable>,
    width: PhysWidth,
    va: VirtAddr<false, ()>,
    pa: PhysAddr<()>,
    flags: &LeafFlags,
    number_of_pages: usize,
) -> (stats: Result<HelperStats, Error>)
    requires
        hierarchy_inv(old(shape)@, old(fa), old(mem), root.spec_pfn(), width),
        va.spec_vpn() + number_of_pages <= u64::MAX,
    ensures
        hierarchy_inv(final(shape)@, final(fa), final(mem), root.spec_pfn(), width),
        grows(old(shape)@, old(fa), old(mem), final(shape)@, final(fa), final(mem)),
        stats matches Ok(s) ==> (s.three as nat, s.two as nat, s.one as nat) == greedy_stats(
            va.spec_vpn(),
            pa.spec_pfn(),
            number_of_pages as nat,
        ),
        stats matches Err(error) ==> error == Error::TableAllocation || error
            == Error::MisalignedAddress || error == Error::EntryInUse,
        stats == Err::<HelperStats, Error>(Error::EntryInUse) && va.spec_vpn() + number_of_pages
            <= PAGES_IN_FOUR_LEVELS ==> exists|stop: nat| #[trigger]
            refused_at(
                old(mem),
                root.spec_pfn(),
                width,
                va.spec_vpn(),
                pa.spec_pfn(),
                pa.spec_offset(),
                number_of_pages as nat,
                stop,
                Error::EntryInUse,
            ) && stop < number_of_pages && leaf_boundary(
                va.spec_vpn(),
                pa.spec_pfn(),
                number_of_pages as nat,
                stop,
            ),
        made_for_range(
            old(shape)@,
            final(shape)@,
            va.spec_vpn(),
            pa.spec_pfn(),
            number_of_pages as nat,
            number_of_pages as nat,
        ),
        exists|taken: Seq<u64>| #[trigger]
            frames_taken(old(fa), final(fa), taken) && taken.len() <= table_bound(
                va.spec_vpn(),
                pa.spec_pfn(),
                number_of_pages as nat,
            ) && (stats == Err::<HelperStats, Error>(Error::TableAllocation) ==> taken.len()
                < table_bound(va.spec_vpn(), pa.spec_pfn(), number_of_pages as nat)),
        stats == Err::<HelperStats, Error>(Error::TableAllocation) ==> no_frame_free(final(fa)),
        stats == Err::<HelperStats, Error>(Error::TableAllocation) ==> forall|frames: Seq<u64>| #[trigger]
            free_frames(old(fa), frames) ==> frames.len() < table_bound(
                va.spec_vpn(),
                pa.spec_pfn(),
                number_of_pages as nat,
            ),
        stats is Ok && number_of_pages > 0 ==> pa.spec_offset() == 0,
        stats == Err::<HelperStats, Error>(Error::MisalignedAddress) ==> pa.spec_offset() != 0
            || pa.spec_pfn() + number_of_pages > 0x0010_0000_0000_0000,
        number_of_pages == 0 ==> stats is Ok && unchanged(
            old(shape)@,
            old(fa),
            old(mem),
            final(shape)@,
            final(fa),
            final(mem),
        ),
        stats is Ok ==> forall|v: u64|
            #![trigger translate(final(mem), root.spec_pfn(), width, v)]
            translate(final(mem), root.spec_pfn(), width, v) == range_translation(
                translate(old(mem), root.spec_pfn(), width, v),
                va.spec_vpn(),
                pa.spec_pfn(),
                number_of_pages as nat,
                *flags,
                v,
            ),
        forall|v: u64|
            #![trigger translate(final(mem), root.spec_pfn(), width, v)]
            translate(old(mem), root.spec_pfn(), width, v) is Some ==> translate(
                final(mem),
                root.spec_pfn(),
                width,
                v,
            ) == translate(old(mem), root.spec_pfn(), width, v),
        stats is Ok ==> forall|v: u64|
            #![trigger translate(old(mem), root.spec_pfn(), width, v)]
            va.spec_vpn() <= v < va.spec_vpn() + number_of_pages && v < PAGES_IN_FOUR_LEVELS
                ==> translate(old(mem), root.spec_pfn(), width, v) is None,
        stats matches Err(error) ==> exists|done: nat| #[trigger]
            stopped_at(
                old(mem),
                final(mem),
                root.spec_pfn(),
                width,
                va.spec_vpn(),
                pa.spec_pfn(),
                number_of_pages as nat,
                *flags,
                done,
            ) && refused_at(
                final(mem),
                root.spec_pfn(),
                width,
                va.spec_vpn(),
                pa.spec_pfn(),
                pa.spec_offset(),
                number_of_pages as nat,
                done,
                error,
            ) && made_for_range(
                old(shape)@,
                final(shape)@,
                va.spec_vpn(),
                pa.spec_pfn(),
                number_of_pages as nat,
                done + 1,
            ),
{
    let ghost vpn0 = va.spec_vpn();
    let ghost pfn0 = pa.spec_pfn();
    let ghost pages0 = number_of_pages;
    let mut next_va = va;
    let mut next_pa = pa;
    let mut remaining: usize = number_of_pages;
    let ghost shape0 = shape@;
    let ghost fa0 = *fa;
    let ghost mem0 = *mem;
    let mut stats = HelperStats { three: 0, two: 0, one: 0 };
    let ghost mut all_taken: Seq<u64> = Seq::empty();
    while remaining > 0
        invariant
            frames_taken(&fa0, &*fa, all_taken),
            vpn0 + pages0 <= PAGES_IN_FOUR_LEVELS ==> later_places_kept(
                &mem0,
                &*mem,
                root.spec_pfn(),
                width,
                vpn0 + (pages0 - remaining),
            ),
            made_for_range(
                shape0,
                shape@,
                vpn0,
                pfn0,
                pages0 as nat,
                (pages0 - remaining) as nat,
            ),
            all_taken.len() + table_bound(
                next_va.spec_vpn(),
                next_pa.spec_pfn(),
                remaining as nat,
            ) <= table_bound(vpn0, pfn0, pages0 as nat),
            shape0 == old(shape)@,
            fa0 == *old(fa),
            mem0 == *old(mem),
            pages0 == number_of_pages,
            hierarchy_inv(shape@, &*fa, &*mem, root.spec_pfn(), width),
            grows(shape0, &fa0, &mem0, shape@, &*fa, &*mem),
            next_va.spec_vpn() + remaining <= u64::MAX,
            stats.three + stats.two + stats.one + remaining <= pages0,
            greedy_stats(vpn0, pfn0, pages0 as nat) == ({
                let rest = greedy_stats(next_va.spec_vpn(), next_pa.spec_pfn(), remaining as nat);
                (
                    (rest.0 + stats.three) as nat,
                    (rest.1 + stats.two) as nat,
                    (rest.2 + stats.one) as nat,
                )
            }),
            pages0 == 0 ==> unchanged(shape0, &fa0, &mem0, shape@, &*fa, &*mem),
            vpn0 == va.spec_vpn(),
            pfn0 == pa.spec_pfn(),
            remaining <= pages0,
            next_va.spec_vpn() == vpn0 + (pages0 - remaining),
            next_pa.spec_offset() == pa.spec_offset(),
            remaining < pages0 ==> pa.spec_offset() == 0,
            next_pa.spec_pfn() == pfn0 + (pages0 - remaining),
            forall|v: u64|
                #![trigger translate(&mem0, root.spec_pfn(), width, v)]
                vpn0 <= v < vpn0 + (pages0 - remaining) && v < PAGES_IN_FOUR_LEVELS ==> translate(
                    &mem0,
                    root.spec_pfn(),
                    width,
                    v,
                ) is None,
            forall|v: u64|
                #![trigger translate(&*mem, root.spec_pfn(), width, v)]
                translate(&mem0, root.spec_pfn(), width, v) is Some ==> translate(
                    &*mem,
                    root.spec_pfn(),
                    width,
                    v,
                ) == translate(&mem0, root.spec_pfn(), width, v),
            leaf_boundary(vpn0, pfn0, pages0 as nat, (pages0 - remaining) as nat),
            forall|v: u64|
                #![trigger translate(&*mem, root.spec_pfn(), width, v)]
                translate(&*mem, root.spec_pfn(), width, v) == range_translation_upto(
                    translate(&mem0, root.spec_pfn(), width, v),
                    vpn0,
                    pfn0,
                    pages0 as nat,
                    (pages0 - remaining) as nat,
                    *flags,
                    v,
                ),
            forall|v: u64|
                #![trigger translate(&*mem, root.spec_pfn(), width, v)]
                range_translation(
                    translate(&*mem, root.spec_pfn(), width, v),
                    next_va.spec_vpn(),
                    next_pa.spec_pfn(),
                    remaining as nat,
                    *flags,
                    v,
                ) == range_translation(
                    translate(&mem0, root.spec_pfn(), width, v),
                    vpn0,
                    pfn0,
                    pages0 as nat,
                    *flags,
                    v,
                ),
        decreases remaining,
    {
        let ghost shape1 = shape@;
        let ghost fa1 = *fa;
        let ghost mem1 = *mem;
        let ghost done = (pages0 - remaining) as nat;
        let level: PagingLevel = if remaining >= PAGES_IN_1GIB && next_va.vpn() & MASK_1GIB
            == next_va.vpn() && next_pa.pfn() & MASK_1GIB == next_pa.pfn() {
            PagingLevel::Three
        } else if remaining >= PAGES_IN_2MIB && next_va.vpn() & MASK_2MIB == next_va.vpn()
            && next_pa.pfn() & MASK_2MIB == next_pa.pfn() {
            PagingLevel::Two
        } else {
            PagingLevel::One
        };
        let step: usize = match level {
            PagingLevel::Three => PAGES_IN_1GIB,
            PagingLevel::Two => PAGES_IN_2MIB,
            _ => 1,
        };
        assert(level == chunk_level(next_va.spec_vpn(), next_pa.spec_pfn(), remaining as nat));
        assert(step == chunk_pages(level));
        let mut leaf_taken: Ghost<Seq<u64>> = Ghost(Seq::empty());
        let entry = match map_leaf(
            fa,
            mem,
            shape,
            root,
            width,
            next_va.clone(),
            next_pa.clone(),
            flags,
            level,
            &mut leaf_taken,
        ) {
            Ok(entry) => entry,
            Err(error) => {
                proof {
                    if level is One && next_pa.spec_pfn() < 0x0010_0000_0000_0000 {
                        lemma_small_is_aligned(next_pa.spec_pfn());
                    }
                    lemma_grows_twice(shape0, &fa0, &mem0, shape1, &fa1, &mem1, shape@, &*fa, &*mem);
                    lemma_taken_after(&fa0, &fa1, &*fa, all_taken, leaf_taken@);
                    lemma_made_for_leaf(shape0, shape1, shape@, vpn0, pfn0, pages0 as nat, done);
                    lemma_made_for_more(
                        shape0,
                        shape@,
                        vpn0,
                        pfn0,
                        pages0 as nat,
                        done + 1,
                        pages0 as nat,
                    );
                    if error == Error::TableAllocation {
                        assert forall|frames: Seq<u64>| #[trigger]
                            free_frames(&fa0, frames) implies frames.len() < table_bound(
                            vpn0,
                            pfn0,
                            pages0 as nat,
                        ) by {
                            lemma_none_left(&fa0, &*fa, all_taken + leaf_taken@, frames);
                        }
                    }
                    lemma_range_stop(
                        &mem0,
                        &mem1,
                        &*mem,
                        root.spec_pfn(),
                        width,
                        vpn0,
                        pfn0,
                        pa.spec_offset(),
                        pages0 as nat,
                        done,
                        *flags,
                        level,
                        error,
                    );
                }
                return Err(error);
            },
        };
        proof {
            lemma_aligned_is_small(next_pa.spec_pfn(), level);
            lemma_grows_twice(shape0, &fa0, &mem0, shape1, &fa1, &mem1, shape@, &*fa, &*mem);
            lemma_range_step(
                &mem0,
                &mem1,
                &*mem,
                root.spec_pfn(),
                width,
                vpn0,
                pfn0,
                pages0 as nat,
                next_va.spec_vpn(),
                next_pa.spec_pfn(),
                remaining as nat,
                *flags,
                level,
            );
            lemma_prefix_step(
                &mem0,
                &mem1,
                &*mem,
                root.spec_pfn(),
                width,
                vpn0,
                pfn0,
                pages0 as nat,
                done,
                *flags,
                level,
            );
            lemma_free_step(
                &mem0,
                &mem1,
                root.spec_pfn(),
                width,
                vpn0,
                pfn0,
                pages0 as nat,
                done,
                *flags,
                next_pa.spec_pfn(),
                next_pa.spec_offset(),
                level,
                Ok(entry.0),
            );
            if vpn0 + pages0 <= PAGES_IN_FOUR_LEVELS {
                lemma_places_step(
                    &mem0,
                    shape1,
                    &fa1,
                    &mem1,
                    shape@,
                    &*fa,
                    &*mem,
                    root.spec_pfn(),
                    width,
                    next_va.spec_vpn(),
                    level,
                    Some(entry.0),
                );
            }
            lemma_taken_after(&fa0, &fa1, &*fa, all_taken, leaf_taken@);
            lemma_made_for_leaf(shape0, shape1, shape@, vpn0, pfn0, pages0 as nat, done);
            lemma_made_for_more(
                shape0,
                shape@,
                vpn0,
                pfn0,
                pages0 as nat,
                done + 1,
                done + step as nat,
            );
            all_taken = all_taken + leaf_taken@;
        }
        next_va.set_vpn(next_va.vpn() + step as u64);
        next_pa.set_pfn(next_pa.pfn() + step as u64);
        remaining -= step;
        match level {
            PagingLevel::Three => {
                stats.three += 1;
            },
            PagingLevel::Two => {
                stats.two += 1;
            },
            _ => {
                stats.one += 1;
            },
        }
    }
    Ok(stats)
}

} // verus!
