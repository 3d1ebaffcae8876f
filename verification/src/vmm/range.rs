//! The mapping of a range of pages: which leaves it takes, and what it
//! means for the pages in the range and for the pages beside it.

use super::builder::{
    leaf_entry, lemma_aligned_is_small, lemma_leaf_entry_flags, lemma_leaf_entry_reads_back,
    page_aligned,
};
use super::mapper::Error;
use super::model::{
    depth_of, extends, in_use, index_at, lemma_entries_kept, lemma_entries_written,
    lemma_index_at_range, level_at_depth, on_the_way, pa_aligned, path_of, path_state, refusal,
    same_way, shape_inv, translate, translation_after, va_aligned, PathState, Shape,
};
use crate::mmu::paging::{has_bit, BIT_PRESENT};
use crate::common::{PagingLevel, PhysWidth};
use crate::mmu::memory::TableMemory;
use crate::mmu::view::{entry_is_leaf, large_leaf_start, leaf_target, lemma_zero_entry, LeafFlags};
use crate::pmm::{free_frames, FrameAllocator};
use vstd::prelude::*;

verus! {

/// The number of 4 KiB pages in a page of 1 GiB.
pub const PAGES_IN_1GIB: usize = 262144;

/// The number of 4 KiB pages in a page of 2 MiB.
pub const PAGES_IN_2MIB: usize = 512;

/// The level of the leaf that maps the first pages of a range of `pages`
/// pages from page `vpn` on to the frames from `pfn` on: the highest
/// level whose page the range still holds and on whose boundary both
/// numbers lie.
pub open spec fn chunk_level(vpn: u64, pfn: u64, pages: nat) -> PagingLevel {
    if pages >= PAGES_IN_1GIB && page_aligned(vpn, PagingLevel::Three) && page_aligned(
        pfn,
        PagingLevel::Three,
    ) {
        PagingLevel::Three
    } else if pages >= PAGES_IN_2MIB && page_aligned(vpn, PagingLevel::Two) && page_aligned(
        pfn,
        PagingLevel::Two,
    ) {
        PagingLevel::Two
    } else {
        PagingLevel::One
    }
}

/// The number of 4 KiB pages that a leaf of `level` maps.
pub open spec fn chunk_pages(level: PagingLevel) -> nat {
    match level {
        PagingLevel::Three => PAGES_IN_1GIB as nat,
        PagingLevel::Two => PAGES_IN_2MIB as nat,
        _ => 1,
    }
}

/// The numbers of leaves of levels three, two and one by which a range of
/// `pages` pages from page `vpn` on is mapped to the frames from `pfn` on,
/// each leaf chosen by `chunk_level`.
pub open spec fn greedy_stats(vpn: u64, pfn: u64, pages: nat) -> (nat, nat, nat)
    decreases pages,
{
    if pages == 0 {
        (0, 0, 0)
    } else {
        let level = chunk_level(vpn, pfn, pages);
        let step = chunk_pages(level);
        let rest = greedy_stats((vpn + step) as u64, (pfn + step) as u64, (pages - step) as nat);
        match level {
            PagingLevel::Three => (rest.0 + 1, rest.1, rest.2),
            PagingLevel::Two => (rest.0, rest.1 + 1, rest.2),
            _ => (rest.0, rest.1, rest.2 + 1),
        }
    }
}

/// The most tables that the leaves of a range can ask for: for each leaf
/// one for each level from level three down to its own.
pub open spec fn table_bound(vpn: u64, pfn: u64, pages: nat) -> nat
    decreases pages,
{
    if pages == 0 {
        0
    } else {
        let level = chunk_level(vpn, pfn, pages);
        let step = chunk_pages(level);
        depth_of(level) + table_bound(
            (vpn + step) as u64,
            (pfn + step) as u64,
            (pages - step) as nat,
        )
    }
}

/// The translation of page `v` after a range of `pages` pages from page
/// `vpn` on was mapped to the frames from `pfn` on, where `before` was its
/// translation before: that by the leaf of the range that maps it, if there
/// is one.
pub open spec fn range_translation(
    before: Option<(PagingLevel, u64)>,
    vpn: u64,
    pfn: u64,
    pages: nat,
    flags: LeafFlags,
    v: u64,
) -> Option<(PagingLevel, u64)>
    decreases pages,
{
    if pages == 0 {
        before
    } else {
        let level = chunk_level(vpn, pfn, pages);
        let step = chunk_pages(level);
        range_translation(
            translation_after(before, vpn, level, Some(leaf_entry(pfn, flags, level)), v),
            (vpn + step) as u64,
            (pfn + step) as u64,
            (pages - step) as nat,
            flags,
            v,
        )
    }
}

/// Whether a leaf of a range of `pages` pages starts `done` pages into it,
/// or the range ends there: the leaves before map just `done` pages.
pub open spec fn leaf_boundary(vpn: u64, pfn: u64, pages: nat, done: nat) -> bool
    decreases pages,
{
    if done == 0 {
        true
    } else if pages == 0 {
        false
    } else {
        let step = chunk_pages(chunk_level(vpn, pfn, pages));
        step <= done && leaf_boundary(
            (vpn + step) as u64,
            (pfn + step) as u64,
            (pages - step) as nat,
            (done - step) as nat,
        )
    }
}

/// The translation of page `v` after the first `done` pages of a range of
/// `pages` pages were mapped, where `before` was its translation before:
/// that by the leaf among the first leaves of the range that maps it, if
/// there is one.
pub open spec fn range_translation_upto(
    before: Option<(PagingLevel, u64)>,
    vpn: u64,
    pfn: u64,
    pages: nat,
    done: nat,
    flags: LeafFlags,
    v: u64,
) -> Option<(PagingLevel, u64)>
    decreases pages,
{
    if pages == 0 || done == 0 {
        before
    } else {
        let level = chunk_level(vpn, pfn, pages);
        let step = chunk_pages(level);
        range_translation_upto(
            translation_after(before, vpn, level, Some(leaf_entry(pfn, flags, level)), v),
            (vpn + step) as u64,
            (pfn + step) as u64,
            (pages - step) as nat,
            (done - step) as nat,
            flags,
            v,
        )
    }
}

/// Whether the mapping of a range of `pages` pages stopped `done` pages
/// into it, before a leaf: the leaves for the pages before are made, and
/// no other page is translated otherwise than it was.
pub open spec fn stopped_at<M: TableMemory>(
    old_mem: &M,
    new_mem: &M,
    root: u64,
    width: PhysWidth,
    vpn: u64,
    pfn: u64,
    pages: nat,
    flags: LeafFlags,
    done: nat,
) -> bool {
    &&& done < pages
    &&& leaf_boundary(vpn, pfn, pages, done)
    &&& forall|v: u64|
        #![trigger translate(new_mem, root, width, v)]
        translate(new_mem, root, width, v) == range_translation_upto(
            translate(old_mem, root, width, v),
            vpn,
            pfn,
            pages,
            done,
            flags,
            v,
        )
}

/// The whole of a range is mapped when all its pages are.
pub proof fn lemma_upto_all(
    before: Option<(PagingLevel, u64)>,
    vpn: u64,
    pfn: u64,
    pages: nat,
    flags: LeafFlags,
    v: u64,
)
    ensures
        leaf_boundary(vpn, pfn, pages, pages),
        range_translation_upto(before, vpn, pfn, pages, pages, flags, v) == range_translation(
            before,
            vpn,
            pfn,
            pages,
            flags,
            v,
        ),
    decreases pages,
{
    if pages > 0 {
        let level = chunk_level(vpn, pfn, pages);
        let step = chunk_pages(level);
        lemma_upto_all(
            translation_after(before, vpn, level, Some(leaf_entry(pfn, flags, level)), v),
            (vpn + step) as u64,
            (pfn + step) as u64,
            (pages - step) as nat,
            flags,
            v,
        );
    }
}

/// The leaves of a range take no translation away: a page that is not
/// mapped after some of them was not mapped before.
pub proof fn lemma_upto_keeps_mapped(
    before: Option<(PagingLevel, u64)>,
    vpn: u64,
    pfn: u64,
    pages: nat,
    done: nat,
    flags: LeafFlags,
    v: u64,
)
    ensures
        range_translation_upto(before, vpn, pfn, pages, done, flags, v) is None ==> before is None,
    decreases pages,
{
    if pages > 0 && done > 0 {
        let level = chunk_level(vpn, pfn, pages);
        let step = chunk_pages(level);
        lemma_upto_keeps_mapped(
            translation_after(before, vpn, level, Some(leaf_entry(pfn, flags, level)), v),
            (vpn + step) as u64,
            (pfn + step) as u64,
            (pages - step) as nat,
            (done - step) as nat,
            flags,
            v,
        );
    }
}

/// One leaf more: the leaf that starts at a boundary `done` pages into a
/// range ends at a boundary, and with it mapped a page is translated by
/// it, or as it was with the leaves before.
pub proof fn lemma_upto_step(
    before: Option<(PagingLevel, u64)>,
    vpn: u64,
    pfn: u64,
    pages: nat,
    done: nat,
    flags: LeafFlags,
    v: u64,
)
    requires
        leaf_boundary(vpn, pfn, pages, done),
        done < pages,
        vpn + done <= u64::MAX,
        pfn + done <= u64::MAX,
    ensures
        ({
            let start = (vpn + done) as u64;
            let frame = (pfn + done) as u64;
            let level = chunk_level(start, frame, (pages - done) as nat);
            let step = chunk_pages(level);
            &&& leaf_boundary(vpn, pfn, pages, done + step)
            &&& range_translation_upto(before, vpn, pfn, pages, done + step, flags, v)
                == translation_after(
                range_translation_upto(before, vpn, pfn, pages, done, flags, v),
                start,
                level,
                Some(leaf_entry(frame, flags, level)),
                v,
            )
        }),
    decreases pages,
{
    let first = chunk_level(vpn, pfn, pages);
    let step = chunk_pages(first);
    if done == 0 {
        assert(leaf_boundary(
            (vpn + step) as u64,
            (pfn + step) as u64,
            (pages - step) as nat,
            0,
        ));
    } else {
        lemma_upto_step(
            translation_after(before, vpn, first, Some(leaf_entry(pfn, flags, first)), v),
            (vpn + step) as u64,
            (pfn + step) as u64,
            (pages - step) as nat,
            (done - step) as nat,
            flags,
            v,
        );
    }
}

/// Whether the tables say why the leaf `done` pages into a range was
/// refused with `error`, as `refusal` has it for the leaf.
pub open spec fn refused_at<M: TableMemory>(
    mem: &M,
    root: u64,
    width: PhysWidth,
    vpn: u64,
    pfn: u64,
    offset: u16,
    pages: nat,
    done: nat,
    error: Error,
) -> bool {
    let start = (vpn + done) as u64;
    let frame = (pfn + done) as u64;
    let level = chunk_level(start, frame, (pages - done) as nat);
    refusal(mem, root, width, start, frame, offset, level, error)
}

/// The leaves that map a range map each of its pages once.
pub proof fn lemma_greedy_covers(vpn: u64, pfn: u64, pages: nat)
    ensures
        ({
            let stats = greedy_stats(vpn, pfn, pages);
            stats.0 * PAGES_IN_1GIB + stats.1 * PAGES_IN_2MIB + stats.2 == pages
        }),
    decreases pages,
{
    if pages > 0 {
        let step = chunk_pages(chunk_level(vpn, pfn, pages));
        lemma_greedy_covers((vpn + step) as u64, (pfn + step) as u64, (pages - step) as nat);
    }
}

/// A range of 1 GiB and one page that starts on a boundary of 1 GiB, at
/// both ends of the mapping, takes one leaf of level three and one of
/// level one.
pub proof fn lemma_greedy_one_gib_and_a_page(vpn: u64, pfn: u64)
    requires
        page_aligned(vpn, PagingLevel::Three),
        page_aligned(pfn, PagingLevel::Three),
    ensures
        greedy_stats(vpn, pfn, 262145) == (1nat, 0nat, 1nat),
{
    reveal_with_fuel(greedy_stats, 3);
}

/// The next boundary: a page size after a boundary of it lies a boundary
/// again, and a boundary of 1 GiB is one of 2 MiB.
proof fn lemma_next_boundary(number: u64)
    by (bit_vector)
    ensures
        number & 0x000F_FFFF_FFFC_0000 == number ==> number & 0x000F_FFFF_FFFF_FE00 == number,
        number & 0x000F_FFFF_FFFC_0000 == number && number + 0x4_0000 < 0x0010_0000_0000_0000
            ==> ((number + 0x4_0000) as u64) & 0x000F_FFFF_FFFC_0000 == (number + 0x4_0000) as u64,
        number & 0x000F_FFFF_FFFF_FE00 == number && number + 0x200 < 0x0010_0000_0000_0000 ==> ((
        number + 0x200) as u64) & 0x000F_FFFF_FFFF_FE00 == (number + 0x200) as u64,
{
}

/// A range of less than 2 MiB takes a leaf of level one for each page.
pub proof fn lemma_greedy_below_two_mib(vpn: u64, pfn: u64, pages: nat)
    requires
        pages < PAGES_IN_2MIB,
    ensures
        greedy_stats(vpn, pfn, pages) == (0nat, 0nat, pages),
    decreases pages,
{
    if pages > 0 {
        lemma_greedy_below_two_mib((vpn + 1) as u64, (pfn + 1) as u64, (pages - 1) as nat);
    }
}

/// A range of less than 1 GiB that starts on a boundary of 2 MiB, at both
/// ends of the mapping, and ends at or below 2^52 takes a leaf of level
/// two for each 2 MiB in it and one of level one for each page left.
pub proof fn lemma_greedy_below_one_gib(vpn: u64, pfn: u64, pages: nat)
    requires
        page_aligned(vpn, PagingLevel::Two),
        page_aligned(pfn, PagingLevel::Two),
        pages < PAGES_IN_1GIB,
        vpn + pages <= 0x0010_0000_0000_0000,
        pfn + pages <= 0x0010_0000_0000_0000,
    ensures
        greedy_stats(vpn, pfn, pages) == (
            0nat,
            pages / (PAGES_IN_2MIB as nat),
            pages % (PAGES_IN_2MIB as nat),
        ),
    decreases pages,
{
    if pages < PAGES_IN_2MIB {
        lemma_greedy_below_two_mib(vpn, pfn, pages);
    } else {
        assert(chunk_level(vpn, pfn, pages) is Two);
        let next_vpn = (vpn + 512) as u64;
        let next_pfn = (pfn + 512) as u64;
        let rest = (pages - 512) as nat;
        if rest > 0 {
            lemma_next_boundary(vpn);
            lemma_next_boundary(pfn);
            assert(page_aligned(next_vpn, PagingLevel::Two));
            assert(page_aligned(next_pfn, PagingLevel::Two));
            lemma_greedy_below_one_gib(next_vpn, next_pfn, rest);
        }
        let after = greedy_stats(next_vpn, next_pfn, rest);
        assert(after == (0nat, rest / 512, rest % 512));
        assert(greedy_stats(vpn, pfn, pages) == (after.0, after.1 + 1, after.2));
        assert(pages / 512 == rest / 512 + 1 && pages % 512 == rest % 512);
    }
}

/// A range that starts on a boundary of 1 GiB, at both ends of the
/// mapping, and ends at or below 2^52 takes a leaf of level three for each
/// 1 GiB in it, one of level two for each 2 MiB left, and one of level one
/// for each page left then.
pub proof fn lemma_greedy_on_boundary(vpn: u64, pfn: u64, pages: nat)
    requires
        page_aligned(vpn, PagingLevel::Three),
        page_aligned(pfn, PagingLevel::Three),
        vpn + pages <= 0x0010_0000_0000_0000,
        pfn + pages <= 0x0010_0000_0000_0000,
    ensures
        greedy_stats(vpn, pfn, pages) == (
            pages / (PAGES_IN_1GIB as nat),
            (pages % (PAGES_IN_1GIB as nat)) / (PAGES_IN_2MIB as nat),
            pages % (PAGES_IN_2MIB as nat),
        ),
    decreases pages,
{
    lemma_next_boundary(vpn);
    lemma_next_boundary(pfn);
    if pages < PAGES_IN_1GIB {
        lemma_greedy_below_one_gib(vpn, pfn, pages);
    } else {
        assert(chunk_level(vpn, pfn, pages) is Three);
        let next_vpn = (vpn + 262144) as u64;
        let next_pfn = (pfn + 262144) as u64;
        let rest = (pages - 262144) as nat;
        if rest > 0 {
            assert(page_aligned(next_vpn, PagingLevel::Three));
            assert(page_aligned(next_pfn, PagingLevel::Three));
            lemma_greedy_on_boundary(next_vpn, next_pfn, rest);
        }
        let after = greedy_stats(next_vpn, next_pfn, rest);
        assert(after == (rest / 262144, (rest % 262144) / 512, rest % 512));
        assert(greedy_stats(vpn, pfn, pages) == (after.0 + 1, after.1, after.2));
        assert(pages / 262144 == rest / 262144 + 1 && pages % 262144 == rest % 262144);
        assert(pages % 512 == rest % 512);
    }
}

/// Whether no page of 1 GiB on a boundary lies within the `pages` pages
/// from page `vpn` on.
pub open spec fn no_gib_fits(vpn: u64, pages: nat) -> bool {
    forall|start: u64|
        vpn <= start && #[trigger] page_aligned(start, PagingLevel::Three) ==> start
            + PAGES_IN_1GIB > vpn + pages
}

/// A range that holds no page of 1 GiB on a boundary, at one end of the
/// mapping or at the other, takes no leaf of level three.
pub proof fn lemma_greedy_no_level_three(vpn: u64, pfn: u64, pages: nat)
    requires
        vpn + pages <= u64::MAX,
        pfn + pages <= u64::MAX,
        no_gib_fits(vpn, pages) || no_gib_fits(pfn, pages),
    ensures
        greedy_stats(vpn, pfn, pages).0 == 0,
    decreases pages,
{
    if pages > 0 {
        let level = chunk_level(vpn, pfn, pages);
        if level is Three {
            assert(page_aligned(vpn, PagingLevel::Three));
            assert(page_aligned(pfn, PagingLevel::Three));
        } else {
            let step = chunk_pages(level);
            lemma_greedy_no_level_three(
                (vpn + step) as u64,
                (pfn + step) as u64,
                (pages - step) as nat,
            );
        }
    }
}

/// No page of 1 GiB on a boundary lies within 1 GiB and one page from one
/// page after a boundary on.
proof fn lemma_no_gib_after_boundary(number: u64)
    requires
        number >= 1,
        page_aligned((number - 1) as u64, PagingLevel::Three),
    ensures
        no_gib_fits(number, 262145),
        number + 262145 <= u64::MAX,
{
    assert forall|start: u64|
        number <= start && #[trigger] page_aligned(start, PagingLevel::Three) implies start
        + PAGES_IN_1GIB > number + 262145 by {
        let before = (number - 1) as u64;
        assert(start >= before + 0x4_0000) by (bit_vector)
            requires
                before & 0x000F_FFFF_FFFC_0000 == before,
                start & 0x000F_FFFF_FFFC_0000 == start,
                before < start,
        ;
    }
    lemma_aligned_is_small((number - 1) as u64, PagingLevel::Three);
}

/// A range of 1 GiB and one page that starts one page after a boundary of
/// 1 GiB, at one end of the mapping or at the other, takes no leaf of
/// level three.
pub proof fn lemma_greedy_off_by_a_page(vpn: u64, pfn: u64)
    requires
        vpn + 262145 <= u64::MAX,
        pfn + 262145 <= u64::MAX,
        (vpn >= 1 && page_aligned((vpn - 1) as u64, PagingLevel::Three)) || (pfn >= 1
            && page_aligned((pfn - 1) as u64, PagingLevel::Three)),
    ensures
        greedy_stats(vpn, pfn, 262145).0 == 0,
{
    if vpn >= 1 && page_aligned((vpn - 1) as u64, PagingLevel::Three) {
        lemma_no_gib_after_boundary(vpn);
    } else {
        lemma_no_gib_after_boundary(pfn);
    }
    lemma_greedy_no_level_three(vpn, pfn, 262145);
}

/// Whether leaves of the levels `levels`, one behind the other, map a range
/// of `pages` pages from page `vpn` on to the frames from `pfn` on: each
/// leaf lies within the range and, above level one, on a boundary of its
/// page size at both ends.
pub open spec fn tiles(vpn: u64, pfn: u64, pages: nat, levels: Seq<PagingLevel>) -> bool
    decreases levels.len(),
{
    if levels.len() == 0 {
        pages == 0
    } else {
        let level = levels[0];
        let step = chunk_pages(level);
        &&& level is Three || level is Two || level is One
        &&& step <= pages
        &&& va_aligned(vpn, level)
        &&& va_aligned(pfn, level)
        &&& tiles((vpn + step) as u64, (pfn + step) as u64, (pages - step) as nat, levels.skip(1))
    }
}

/// The number of leaves by which `map` maps a range.
pub open spec fn greedy_count(vpn: u64, pfn: u64, pages: nat) -> nat {
    let stats = greedy_stats(vpn, pfn, pages);
    stats.0 + stats.1 + stats.2
}

proof fn lemma_leaf_ends_within(start: u64, v: u64)
    by (bit_vector)
    requires
        start <= v,
    ensures
        start & 0x000F_FFFF_FFFF_FE00 == start && v < start + 512 && v & 0x000F_FFFF_FFFF_FE00 == v
            ==> v == start,
        start & 0x000F_FFFF_FFFF_FE00 == start && v < start + 512 && v & 0x000F_FFFF_FFFC_0000 == v
            ==> v == start && start & 0x000F_FFFF_FFFC_0000 == start,
        start & 0x000F_FFFF_FFFC_0000 == start && v < start + 262144 && v & 0x000F_FFFF_FFFC_0000
            == v ==> v == start,
        start & 0x000F_FFFF_FFFC_0000 == start && v < start + 262144 && v & 0x000F_FFFF_FFFF_FE00
            == v ==> v + 512 <= start + 262144,
{
}

/// Whether the first `k` leaves of a range map just its pages before page
/// `end`, and the others the rest.
pub open spec fn splits(
    end: int,
    vpn: u64,
    pfn: u64,
    pages: nat,
    levels: Seq<PagingLevel>,
    k: int,
) -> bool {
    &&& 0 <= k <= levels.len()
    &&& vpn < end ==> k >= 1
    &&& tiles(end as u64, (pfn + (end - vpn)) as u64, (pages - (end - vpn)) as nat, levels.skip(k))
}

/// The leaves of a range that start within the first leaf that `map` would
/// make end within it: some first leaves of the range map just the pages
/// of that leaf.
proof fn lemma_tiles_split(
    start: u64,
    first: PagingLevel,
    vpn: u64,
    pfn: u64,
    pages: nat,
    levels: Seq<PagingLevel>,
)
    requires
        first is Three || first is Two || first is One,
        va_aligned(start, first),
        start <= vpn <= start + chunk_pages(first) <= vpn + pages,
        vpn + pages <= u64::MAX,
        pfn + pages <= u64::MAX,
        tiles(vpn, pfn, pages, levels),
        vpn == start && levels.len() > 0 ==> chunk_pages(levels[0]) <= chunk_pages(first),
    ensures
        exists|k: int| #[trigger] splits(start + chunk_pages(first), vpn, pfn, pages, levels, k),
    decreases levels.len(),
{
    let end = start + chunk_pages(first);
    if vpn == end {
        assert(levels.skip(0) =~= levels);
        assert(splits(end, vpn, pfn, pages, levels, 0));
    } else {
        let level = levels[0];
        let step = chunk_pages(level);
        lemma_leaf_ends_within(start, vpn);
        assert(vpn + step <= end);
        let rest = levels.skip(1);
        let next_vpn = (vpn + step) as u64;
        let next_pfn = (pfn + step) as u64;
        let next_pages = (pages - step) as nat;
        lemma_tiles_split(start, first, next_vpn, next_pfn, next_pages, rest);
        let k = choose|k: int| #[trigger] splits(end, next_vpn, next_pfn, next_pages, rest, k);
        assert(rest.skip(k) =~= levels.skip(k + 1));
        assert(splits(end, vpn, pfn, pages, levels, k + 1));
    }
}

/// No leaves that map a range are fewer than those that `map` makes: to
/// take, each time, the largest leaf that fits gives the fewest leaves.
pub proof fn lemma_greedy_is_least(vpn: u64, pfn: u64, pages: nat, levels: Seq<PagingLevel>)
    requires
        vpn + pages <= u64::MAX,
        pfn + pages <= u64::MAX,
        tiles(vpn, pfn, pages, levels),
    ensures
        greedy_count(vpn, pfn, pages) <= levels.len(),
    decreases pages,
{
    if pages > 0 {
        let first = chunk_level(vpn, pfn, pages);
        let step = chunk_pages(first);
        lemma_tiles_split(vpn, first, vpn, pfn, pages, levels);
        let k = choose|k: int| #[trigger] splits(vpn + step, vpn, pfn, pages, levels, k);
        lemma_greedy_is_least(
            (vpn + step) as u64,
            (pfn + step) as u64,
            (pages - step) as nat,
            levels.skip(k),
        );
    }
}

/// The number of pages that four levels translate: 2^36.
pub const PAGES_IN_FOUR_LEVELS: u64 = 0x10_0000_0000;

proof fn lemma_indices_and_ranges(v: u64, c: u64)
    by (bit_vector)
    requires
        v < 0x10_0000_0000,
        c < 0x10_0000_0000,
    ensures
        ((v >> 27) & 0x1FF == (c >> 27) & 0x1FF && (v >> 18) & 0x1FF == (c >> 18) & 0x1FF && (v
            >> 9) & 0x1FF == (c >> 9) & 0x1FF && (v >> 0) & 0x1FF == (c >> 0) & 0x1FF) <==> v == c,
        c & 0x000F_FFFF_FFFF_FE00 == c ==> (((v >> 27) & 0x1FF == (c >> 27) & 0x1FF && (v >> 18)
            & 0x1FF == (c >> 18) & 0x1FF && (v >> 9) & 0x1FF == (c >> 9) & 0x1FF) <==> (c <= v && v
            < c + 512)),
        c & 0x000F_FFFF_FFFC_0000 == c ==> (((v >> 27) & 0x1FF == (c >> 27) & 0x1FF && (v >> 18)
            & 0x1FF == (c >> 18) & 0x1FF) <==> (c <= v && v < c + 262144)),
        (v >> 27) & 0x1FF < 512 && (v >> 18) & 0x1FF < 512 && (v >> 9) & 0x1FF < 512 && (v >> 0)
            & 0x1FF < 512,
        (c >> 27) & 0x1FF < 512 && (c >> 18) & 0x1FF < 512 && (c >> 9) & 0x1FF < 512 && (c >> 0)
            & 0x1FF < 512,
{
}

/// Pages go the same way down to a level where their indices agree from
/// level four down to it.
pub proof fn lemma_same_way_by_indices(a: u64, b: u64, level: PagingLevel)
    requires
        level is Three || level is Two || level is One,
    ensures
        same_way(a, b, level) <==> (index_at(a, PagingLevel::Four) == index_at(b, PagingLevel::Four)
            && index_at(a, PagingLevel::Three) == index_at(b, PagingLevel::Three) && (level
            is Three || (index_at(a, PagingLevel::Two) == index_at(b, PagingLevel::Two) && (level
            is Two || index_at(a, PagingLevel::One) == index_at(b, PagingLevel::One))))),
{
    let d = (depth_of(level) + 1) as nat;
    let pa = path_of(a, d);
    let pb = path_of(b, d);
    assert(level_at_depth(0) == PagingLevel::Four);
    assert(level_at_depth(1) == PagingLevel::Three);
    assert(level_at_depth(2) == PagingLevel::Two);
    assert(level_at_depth(3) == PagingLevel::One);
    if same_way(a, b, level) {
        assert(pa[0] == pb[0]);
        assert(pa[1] == pb[1]);
        if !(level is Three) {
            assert(pa[2] == pb[2]);
            if !(level is Two) {
                assert(pa[3] == pb[3]);
            }
        }
    } else {
        if index_at(a, PagingLevel::Four) == index_at(b, PagingLevel::Four) && index_at(
            a,
            PagingLevel::Three,
        ) == index_at(b, PagingLevel::Three) && (level is Three || (index_at(a, PagingLevel::Two)
            == index_at(b, PagingLevel::Two) && (level is Two || index_at(a, PagingLevel::One)
            == index_at(b, PagingLevel::One)))) {
            assert(pa =~= pb);
        }
    }
}

/// Among the pages that four levels translate, those that a leaf maps are
/// the pages of its page: they follow each other from the page on the
/// boundary on.
pub proof fn lemma_same_way_is_same_page(v: u64, start: u64, level: PagingLevel)
    requires
        level is Three || level is Two || level is One,
        v < PAGES_IN_FOUR_LEVELS,
        start < PAGES_IN_FOUR_LEVELS,
        va_aligned(start, level),
    ensures
        same_way(v, start, level) <==> start <= v < start + chunk_pages(level),
{
    lemma_same_way_by_indices(v, start, level);
    lemma_indices_and_ranges(v, start);
}

/// A leaf is read as a leaf of its level where its flags make it present.
pub proof fn lemma_leaf_entry_present(pfn: u64, flags: LeafFlags, level: PagingLevel)
    requires
        level is Three || level is Two || level is One,
    ensures
        entry_is_leaf(leaf_entry(pfn, flags, level), level) == flags.directory_flags.present,
{
    lemma_leaf_entry_flags(pfn, flags, level);
}

/// A page beside a mapped range is translated as before.
pub proof fn lemma_range_leaves_other_pages(
    before: Option<(PagingLevel, u64)>,
    vpn: u64,
    pfn: u64,
    pages: nat,
    flags: LeafFlags,
    v: u64,
)
    requires
        vpn + pages <= PAGES_IN_FOUR_LEVELS,
        v < PAGES_IN_FOUR_LEVELS,
        !(vpn <= v < vpn + pages),
    ensures
        range_translation(before, vpn, pfn, pages, flags, v) == before,
    decreases pages,
{
    if pages > 0 {
        let level = chunk_level(vpn, pfn, pages);
        let step = chunk_pages(level);
        lemma_same_way_is_same_page(v, vpn, level);
        lemma_range_leaves_other_pages(
            before,
            (vpn + step) as u64,
            (pfn + step) as u64,
            (pages - step) as nat,
            flags,
            v,
        );
    }
}

/// The leaf of a mapped range that maps page `v`: the page and the frame
/// at which it starts, and its level.
pub open spec fn chunk_of(vpn: u64, pfn: u64, pages: nat, v: u64) -> (u64, u64, PagingLevel)
    decreases pages,
{
    let level = chunk_level(vpn, pfn, pages);
    let step = chunk_pages(level);
    if pages == 0 || v < vpn + step {
        (vpn, pfn, level)
    } else {
        chunk_of((vpn + step) as u64, (pfn + step) as u64, (pages - step) as nat, v)
    }
}

/// Whether each table that `new_shape` holds beyond `old_shape` lies on
/// the way of a leaf of the range that starts within its first `upto`
/// pages: on the way of the page at which the leaf starts, above the
/// level of the leaf.
pub open spec fn made_for_range(
    old_shape: Shape,
    new_shape: Shape,
    vpn: u64,
    pfn: u64,
    pages: nat,
    upto: nat,
) -> bool {
    forall|t: u64| #[trigger]
        new_shape.dom().contains(t) && !old_shape.dom().contains(t) ==> exists|v: u64|
            vpn <= v < vpn + upto && #[trigger] on_the_way(
                new_shape[t],
                chunk_of(vpn, pfn, pages, v).0,
                chunk_of(vpn, pfn, pages, v).2,
            )
}

/// Tables made for the first pages of a range are made for more of them.
pub proof fn lemma_made_for_more(
    old_shape: Shape,
    new_shape: Shape,
    vpn: u64,
    pfn: u64,
    pages: nat,
    upto: nat,
    more: nat,
)
    requires
        made_for_range(old_shape, new_shape, vpn, pfn, pages, upto),
        upto <= more,
    ensures
        made_for_range(old_shape, new_shape, vpn, pfn, pages, more),
{
    assert forall|t: u64| #[trigger]
        new_shape.dom().contains(t) && !old_shape.dom().contains(t) implies exists|v: u64|
        vpn <= v < vpn + more && #[trigger] on_the_way(
            new_shape[t],
            chunk_of(vpn, pfn, pages, v).0,
            chunk_of(vpn, pfn, pages, v).2,
        ) by {
        let v = choose|v: u64|
            vpn <= v < vpn + upto && #[trigger] on_the_way(
                new_shape[t],
                chunk_of(vpn, pfn, pages, v).0,
                chunk_of(vpn, pfn, pages, v).2,
            );
        assert(on_the_way(
            new_shape[t],
            chunk_of(vpn, pfn, pages, v).0,
            chunk_of(vpn, pfn, pages, v).2,
        ));
    }
}

/// The leaf that starts `done` pages into a range is the leaf of the
/// range that maps the page there.
pub proof fn lemma_chunk_at_boundary(vpn: u64, pfn: u64, pages: nat, done: nat)
    requires
        leaf_boundary(vpn, pfn, pages, done),
        done < pages,
        vpn + done <= u64::MAX,
        pfn + done <= u64::MAX,
    ensures
        chunk_of(vpn, pfn, pages, (vpn + done) as u64) == (
            (vpn + done) as u64,
            (pfn + done) as u64,
            chunk_level((vpn + done) as u64, (pfn + done) as u64, (pages - done) as nat),
        ),
    decreases pages,
{
    if done > 0 {
        let step = chunk_pages(chunk_level(vpn, pfn, pages));
        lemma_chunk_at_boundary(
            (vpn + step) as u64,
            (pfn + step) as u64,
            (pages - step) as nat,
            (done - step) as nat,
        );
    }
}

/// One leaf more of a range: the tables made for it are made for the
/// range.
pub proof fn lemma_made_for_leaf(
    shape0: Shape,
    shape1: Shape,
    shape2: Shape,
    vpn: u64,
    pfn: u64,
    pages: nat,
    done: nat,
)
    requires
        leaf_boundary(vpn, pfn, pages, done),
        done < pages,
        vpn + done <= u64::MAX,
        pfn + done <= u64::MAX,
        made_for_range(shape0, shape1, vpn, pfn, pages, done),
        forall|t: u64| #[trigger]
            shape1.dom().contains(t) ==> shape2.dom().contains(t) && shape2[t] == shape1[t],
        forall|t: u64| #[trigger]
            shape2.dom().contains(t) && !shape1.dom().contains(t) ==> on_the_way(
                shape2[t],
                (vpn + done) as u64,
                chunk_level((vpn + done) as u64, (pfn + done) as u64, (pages - done) as nat),
            ),
    ensures
        made_for_range(shape0, shape2, vpn, pfn, pages, done + 1),
{
    lemma_chunk_at_boundary(vpn, pfn, pages, done);
    let start = (vpn + done) as u64;
    assert forall|t: u64| #[trigger]
        shape2.dom().contains(t) && !shape0.dom().contains(t) implies exists|v: u64|
        vpn <= v < vpn + done + 1 && #[trigger] on_the_way(
            shape2[t],
            chunk_of(vpn, pfn, pages, v).0,
            chunk_of(vpn, pfn, pages, v).2,
        ) by {
        if shape1.dom().contains(t) {
            let v = choose|v: u64|
                vpn <= v < vpn + done && #[trigger] on_the_way(
                    shape1[t],
                    chunk_of(vpn, pfn, pages, v).0,
                    chunk_of(vpn, pfn, pages, v).2,
                );
            assert(on_the_way(
                shape2[t],
                chunk_of(vpn, pfn, pages, v).0,
                chunk_of(vpn, pfn, pages, v).2,
            ));
        } else {
            assert(on_the_way(
                shape2[t],
                chunk_of(vpn, pfn, pages, start).0,
                chunk_of(vpn, pfn, pages, start).2,
            ));
        }
    }
}

/// A page of a mapped range is translated by the leaf of the range that
/// maps it, where the flags make the leaves present. The leaf starts on a
/// boundary of its page size at both ends, holds the page, and lies as far
/// from the start of the range at both ends.
pub proof fn lemma_range_maps_its_pages(
    before: Option<(PagingLevel, u64)>,
    vpn: u64,
    pfn: u64,
    pages: nat,
    flags: LeafFlags,
    v: u64,
)
    requires
        vpn + pages <= PAGES_IN_FOUR_LEVELS,
        pfn + pages <= u64::MAX,
        vpn <= v < vpn + pages,
        flags.directory_flags.present,
    ensures
        ({
            let (start, frame, level) = chunk_of(vpn, pfn, pages, v);
            &&& range_translation(before, vpn, pfn, pages, flags, v) == Some(
                (level, leaf_entry(frame, flags, level)),
            )
            &&& level is Three || level is Two || level is One
            &&& va_aligned(start, level)
            &&& va_aligned(frame, level)
            &&& start <= v < start + chunk_pages(level)
            &&& vpn <= start
            &&& start + chunk_pages(level) <= vpn + pages
            &&& frame - start == pfn - vpn
        }),
    decreases pages,
{
    let level = chunk_level(vpn, pfn, pages);
    let step = chunk_pages(level);
    lemma_same_way_is_same_page(v, vpn, level);
    lemma_leaf_entry_present(pfn, flags, level);
    if v < vpn + step {
        lemma_range_leaves_other_pages(
            Some((level, leaf_entry(pfn, flags, level))),
            (vpn + step) as u64,
            (pfn + step) as u64,
            (pages - step) as nat,
            flags,
            v,
        );
    } else {
        lemma_range_maps_its_pages(
            translation_after(before, vpn, level, Some(leaf_entry(pfn, flags, level)), v),
            (vpn + step) as u64,
            (pfn + step) as u64,
            (pages - step) as nat,
            flags,
            v,
        );
    }
}

/// The pages of a page of the size of `level` but the first bits of a page
/// number: what tells the pages of one page apart.
pub open spec fn page_offset_mask(level: PagingLevel) -> u64 {
    match level {
        PagingLevel::Three => 0x3FFFF,
        PagingLevel::Two => 0x1FF,
        _ => 0,
    }
}

/// The frame to which a translation takes page `v`: as far into the page
/// of the leaf as `v` lies into the page that the leaf maps.
pub open spec fn frame_of(translation: Option<(PagingLevel, u64)>, v: u64, width: PhysWidth) -> Option<
    u64,
> {
    match translation {
        Some((level, raw)) => Some(
            (leaf_target(raw, large_leaf_start(level), width) + (v & page_offset_mask(
                level,
            ))) as u64,
        ),
        None => None,
    }
}

proof fn lemma_page_offset(v: u64, start: u64)
    by (bit_vector)
    requires
        start <= v,
    ensures
        v < start + 262144 && start & 0x000F_FFFF_FFFC_0000 == start ==> v & 0x3FFFF == v - start,
        v < start + 512 && start & 0x000F_FFFF_FFFF_FE00 == start ==> v & 0x1FF == v - start,
        v & 0 == 0,
        start < 0x100_0000_0000 ==> start & 0x000F_FFFF_FFFF_FFFF == start,
{
}

/// After a range is mapped, each of its pages is translated to the frame
/// that lies as far into the frames as the page lies into the range. The
/// width must be able to address the frames, and the protection key must
/// fit its four bits.
pub proof fn lemma_range_maps_pages_to_frames(
    before: Option<(PagingLevel, u64)>,
    vpn: u64,
    pfn: u64,
    pages: nat,
    flags: LeafFlags,
    width: PhysWidth,
    v: u64,
)
    requires
        vpn + pages <= PAGES_IN_FOUR_LEVELS,
        width.wf(),
        pfn + pages <= width.frames(),
        vpn <= v < vpn + pages,
        flags.directory_flags.present,
        flags.protection_key < 16,
    ensures
        frame_of(range_translation(before, vpn, pfn, pages, flags, v), v, width) == Some(
            (pfn + (v - vpn)) as u64,
        ),
{
    lemma_range_maps_its_pages(before, vpn, pfn, pages, flags, v);
    let (start, frame, level) = chunk_of(vpn, pfn, pages, v);
    width.lemma_frames_bound();
    lemma_page_offset(v, start);
    lemma_page_offset(frame, frame);
    lemma_leaf_entry_reads_back(frame, flags, width, level);
}

/// After the first leaves of a range were made, a page beside the pages
/// that they map is translated as before.
pub proof fn lemma_upto_leaves_other_pages(
    before: Option<(PagingLevel, u64)>,
    vpn: u64,
    pfn: u64,
    pages: nat,
    done: nat,
    flags: LeafFlags,
    v: u64,
)
    requires
        leaf_boundary(vpn, pfn, pages, done),
        vpn + pages <= PAGES_IN_FOUR_LEVELS,
        v < PAGES_IN_FOUR_LEVELS,
        !(vpn <= v < vpn + done),
    ensures
        range_translation_upto(before, vpn, pfn, pages, done, flags, v) == before,
    decreases pages,
{
    if pages > 0 && done > 0 {
        let level = chunk_level(vpn, pfn, pages);
        let step = chunk_pages(level);
        lemma_same_way_is_same_page(v, vpn, level);
        lemma_upto_leaves_other_pages(
            before,
            (vpn + step) as u64,
            (pfn + step) as u64,
            (pages - step) as nat,
            (done - step) as nat,
            flags,
            v,
        );
    }
}

/// After the first leaves of a range were made, each page that they map
/// is translated to the frame that lies as far into the frames as the
/// page lies into the range. The width must be able to address the
/// frames, and the protection key must fit its four bits.
pub proof fn lemma_upto_maps_pages_to_frames(
    before: Option<(PagingLevel, u64)>,
    vpn: u64,
    pfn: u64,
    pages: nat,
    done: nat,
    flags: LeafFlags,
    width: PhysWidth,
    v: u64,
)
    requires
        leaf_boundary(vpn, pfn, pages, done),
        vpn + pages <= PAGES_IN_FOUR_LEVELS,
        width.wf(),
        pfn + pages <= width.frames(),
        vpn <= v < vpn + done,
        flags.directory_flags.present,
        flags.protection_key < 16,
    ensures
        frame_of(range_translation_upto(before, vpn, pfn, pages, done, flags, v), v, width) == Some(
            (pfn + (v - vpn)) as u64,
        ),
    decreases pages,
{
    let level = chunk_level(vpn, pfn, pages);
    let step = chunk_pages(level);
    let with_leaf = translation_after(before, vpn, level, Some(leaf_entry(pfn, flags, level)), v);
    if v < vpn + step {
        assert(chunk_level(vpn, pfn, step) == level);
        assert(range_translation(before, vpn, pfn, step, flags, v) == with_leaf) by {
            reveal_with_fuel(range_translation, 2);
        }
        lemma_range_maps_pages_to_frames(before, vpn, pfn, step, flags, width, v);
        lemma_upto_leaves_other_pages(
            with_leaf,
            (vpn + step) as u64,
            (pfn + step) as u64,
            (pages - step) as nat,
            (done - step) as nat,
            flags,
            v,
        );
    } else {
        lemma_upto_maps_pages_to_frames(
            with_leaf,
            (vpn + step) as u64,
            (pfn + step) as u64,
            (pages - step) as nat,
            (done - step) as nat,
            flags,
            width,
            v,
        );
    }
}

/// A walk for a leaf leaves the places of the leaves behind it as they
/// were: a place behind the page of the leaf that is in use after the
/// walk was in use before.
pub proof fn lemma_walk_leaves_later_places<FA: FrameAllocator, M: TableMemory>(
    shape: Shape,
    fa: &FA,
    mem: &M,
    new_shape: Shape,
    new_fa: &FA,
    new_mem: &M,
    root: u64,
    width: PhysWidth,
    vpn: u64,
    level: PagingLevel,
    leaf: Option<u64>,
    v: u64,
    at: PagingLevel,
)
    requires
        level is Three || level is Two || level is One,
        at is Three || at is Two || at is One,
        shape_inv(shape, fa, mem, root, width),
        shape_inv(new_shape, new_fa, new_mem, root, width),
        extends(shape, fa, mem, new_shape, new_fa, new_mem, vpn, level, leaf),
        va_aligned(vpn, level),
        vpn < PAGES_IN_FOUR_LEVELS,
        v < PAGES_IN_FOUR_LEVELS,
        vpn + chunk_pages(level) <= v,
        va_aligned(v, at),
        in_use(new_mem, root, width, v, at),
    ensures
        in_use(mem, root, width, v, at),
{
    let three = PagingLevel::Three;
    let two = PagingLevel::Two;
    let one = PagingLevel::One;
    lemma_entries_kept(shape, fa, mem, new_shape, new_fa, new_mem, root, width, v, PagingLevel::Four);
    lemma_entries_kept(shape, fa, mem, new_shape, new_fa, new_mem, root, width, v, three);
    lemma_entries_kept(shape, fa, mem, new_shape, new_fa, new_mem, root, width, v, two);
    lemma_entries_kept(shape, fa, mem, new_shape, new_fa, new_mem, root, width, v, one);
    lemma_entries_written(
        shape, fa, mem, new_shape, new_fa, new_mem, root, width, vpn, level, leaf, v,
        PagingLevel::Four,
    );
    lemma_entries_written(
        shape, fa, mem, new_shape, new_fa, new_mem, root, width, vpn, level, leaf, v, three,
    );
    lemma_entries_written(
        shape, fa, mem, new_shape, new_fa, new_mem, root, width, vpn, level, leaf, v, two,
    );
    lemma_entries_written(
        shape, fa, mem, new_shape, new_fa, new_mem, root, width, vpn, level, leaf, v, one,
    );
    lemma_same_way_is_same_page(v, vpn, level);
    lemma_same_way_is_same_page(vpn, v, at);
    lemma_same_way_by_indices(v, vpn, three);
    lemma_same_way_by_indices(v, vpn, two);
    lemma_same_way_by_indices(v, vpn, one);
    lemma_same_way_by_indices(vpn, v, three);
    lemma_same_way_by_indices(vpn, v, two);
    lemma_same_way_by_indices(vpn, v, one);
    lemma_zero_entry();
    assert(level_at_depth(0) == PagingLevel::Four && level_at_depth(1) == three && level_at_depth(2)
        == two && level_at_depth(3) == one);
    lemma_index_at_range(v, PagingLevel::Four);
    lemma_index_at_range(v, three);
    lemma_index_at_range(v, two);
    lemma_index_at_range(v, one);
}

/// The tables that the leaves of a range can ask for, by the numbers of
/// its leaves: one for a leaf of level three, two for one of level two,
/// three for one of level one.
pub proof fn lemma_table_bound_by_leaves(vpn: u64, pfn: u64, pages: nat)
    ensures
        ({
            let stats = greedy_stats(vpn, pfn, pages);
            table_bound(vpn, pfn, pages) == stats.0 + 2 * stats.1 + 3 * stats.2
        }),
    decreases pages,
{
    if pages > 0 {
        let step = chunk_pages(chunk_level(vpn, pfn, pages));
        lemma_table_bound_by_leaves((vpn + step) as u64, (pfn + step) as u64, (pages - step) as nat);
    }
}

/// When the mapping of a range succeeds: an error `refused` of which
/// holds what `map` states of its errors is none, where the range lies
/// within the pages that four levels translate and the frames that 52
/// bits address, the physical address starts a frame, the place of none
/// of its leaves is in use, and the allocator has as many free frames as
/// `table_bound` counts.
pub proof fn lemma_map_succeeds<FA: FrameAllocator, M: TableMemory>(
    fa: &FA,
    mem: &M,
    root: u64,
    width: PhysWidth,
    vpn: u64,
    pfn: u64,
    offset: u16,
    pages: nat,
    frames: Seq<u64>,
    refused: Option<Error>,
)
    requires
        vpn + pages <= PAGES_IN_FOUR_LEVELS,
        pfn + pages <= 0x0010_0000_0000_0000,
        offset == 0,
        free_frames(fa, frames),
        frames.len() >= table_bound(vpn, pfn, pages),
        forall|stop: nat|
            stop < pages && leaf_boundary(vpn, pfn, pages, stop) ==> !#[trigger] refused_at(
                mem,
                root,
                width,
                vpn,
                pfn,
                offset,
                pages,
                stop,
                Error::EntryInUse,
            ),
        refused matches Some(error) ==> error == Error::TableAllocation || error
            == Error::MisalignedAddress || error == Error::EntryInUse,
        refused == Some(Error::TableAllocation) ==> forall|others: Seq<u64>| #[trigger]
            free_frames(fa, others) ==> others.len() < table_bound(vpn, pfn, pages),
        refused == Some(Error::MisalignedAddress) ==> offset != 0 || pfn + pages
            > 0x0010_0000_0000_0000,
        refused == Some(Error::EntryInUse) ==> exists|stop: nat| #[trigger]
            refused_at(mem, root, width, vpn, pfn, offset, pages, stop, Error::EntryInUse) && stop
                < pages && leaf_boundary(vpn, pfn, pages, stop),
    ensures
        refused is None,
{
}

} // verus!
