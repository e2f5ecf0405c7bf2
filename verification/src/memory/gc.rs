//! The garbage collector: marks the root segments, sweeps the others.

use crate::clock::{elapsed_ms, start_clock};
use crate::memory::page_table::PageTable;
use crate::memory::segment::{MemorySegment, SegmentView};
use std::collections::HashSet;
use vstd::prelude::*;

verus! {

broadcast use vstd::std_specs::hash::group_hash_axioms;

/// What the collector has done so far.
#[derive(Debug)]
pub struct GCStats {
    pub collections: usize,
    pub freed_segments: usize,
    pub freed_pages: usize,
    pub total_time_ms: u64,
}

impl Default for GCStats {
    fn default() -> (r: Self)
        ensures
            r.collections == 0,
            r.freed_segments == 0,
            r.freed_pages == 0,
            r.total_time_ms == 0,
    {
        GCStats { collections: 0, freed_segments: 0, freed_pages: 0, total_time_ms: 0 }
    }
}

impl GCStats {
    /// The segments and pages freed so far, taken together.
    pub fn total_freed_memory(&self) -> (r: usize)
        requires
            self.freed_segments + self.freed_pages <= usize::MAX,
        ensures
            r == self.freed_segments + self.freed_pages,
    {
        self.freed_segments + self.freed_pages
    }
}

/// A segment is a root where it is shared or has an owner.
pub open spec fn is_root(s: SegmentView) -> bool {
    s.is_shared || s.owner_id is Some
}

pub open spec fn segments_view(s: Seq<MemorySegment>) -> Seq<SegmentView> {
    Seq::new(s.len(), |i: int| s[i]@)
}

/// The marks that the first `n` segments get: the position of each root,
/// narrowed to 32 bits.
pub open spec fn marks_upto(segments: Seq<SegmentView>, n: int) -> Set<u32>
    decreases n,
{
    if n <= 0 {
        Set::empty()
    } else if is_root(segments[n - 1]) {
        marks_upto(segments, n - 1).insert((n - 1) as u32)
    } else {
        marks_upto(segments, n - 1)
    }
}

/// What a sweep from position `i` on leaves: a segment whose position at
/// the moment it is looked at carries no mark is removed, and the segments
/// behind it move up before the sweep goes on.
pub open spec fn sweep_from(segments: Seq<SegmentView>, marked: Set<u32>, i: int) -> Seq<
    SegmentView,
>
    decreases segments.len() - i,
{
    if i < 0 || i >= segments.len() {
        segments
    } else if !marked.contains(i as u32) {
        sweep_from(segments.remove(i), marked, i)
    } else {
        sweep_from(segments, marked, i + 1)
    }
}

/// The segments that a collection leaves.
pub open spec fn survivors(segments: Seq<SegmentView>) -> Seq<SegmentView> {
    sweep_from(segments, marks_upto(segments, segments.len() as int), 0)
}

/// The collector with its statistics.
#[derive(Debug)]
pub struct GarbageCollector {
    threshold: usize,
    marked: HashSet<u32>,
    stats: GCStats,
}

impl GarbageCollector {
    /// Between collections no segment is marked.
    pub closed spec fn wf(&self) -> bool {
        self.marked@ == Set::<u32>::empty()
    }

    /// The statistics so far.
    pub closed spec fn spec_stats(&self) -> GCStats {
        self.stats
    }

    /// The amount of memory in use from which a collection is due.
    pub closed spec fn spec_threshold(&self) -> usize {
        self.threshold
    }

    /// A collector that has not run yet.
    pub fn new(threshold: usize) -> (r: Self)
        ensures
            r.wf(),
            r.spec_threshold() == threshold,
            r.spec_stats().collections == 0,
            r.spec_stats().freed_segments == 0,
            r.spec_stats().freed_pages == 0,
            r.spec_stats().total_time_ms == 0,
    {
        GarbageCollector { threshold, marked: HashSet::new(), stats: GCStats::default() }
    }

    /// Collects: the root segments stay, the sweep removes the others, and
    /// the statistics count one collection and one segment and one page for
    /// each segment removed. The time spent is added to the total, which
    /// stays at its largest value once it is reached. The page table is not
    /// touched.
    pub fn collect(&mut self, segments: &mut Vec<MemorySegment>, page_table: &mut PageTable)
        requires
            old(self).wf(),
            old(self).spec_stats().collections < usize::MAX,
            old(self).spec_stats().freed_segments + old(segments)@.len() <= usize::MAX,
            old(self).spec_stats().freed_pages + old(segments)@.len() <= usize::MAX,
        ensures
            final(self).wf(),
            final(self).spec_threshold() == old(self).spec_threshold(),
            segments_view(final(segments)@) == survivors(segments_view(old(segments)@)),
            final(self).spec_stats().collections == old(self).spec_stats().collections + 1,
            final(self).spec_stats().freed_segments == old(self).spec_stats().freed_segments
                + (old(segments)@.len() - final(segments)@.len()),
            final(self).spec_stats().freed_pages == old(self).spec_stats().freed_pages
                + (old(segments)@.len() - final(segments)@.len()),
            final(self).spec_stats().total_time_ms >= old(self).spec_stats().total_time_ms,
            *final(page_table) == *old(page_table),
    {
        let start = start_clock();
        self.mark(segments);
        let (freed_segments, freed_pages) = self.sweep(segments, page_table);
        self.stats.collections += 1;
        self.stats.freed_segments += freed_segments;
        self.stats.freed_pages += freed_pages;
        self.stats.total_time_ms = self.stats.total_time_ms.saturating_add(elapsed_ms(&start));
        self.marked.clear();
    }

    /// Marks the position of every root segment.
    fn mark(&mut self, segments: &Vec<MemorySegment>)
        requires
            old(self).wf(),
        ensures
            final(self).marked@ == marks_upto(segments_view(segments@), segments@.len() as int),
            final(self).stats == old(self).stats,
            final(self).threshold == old(self).threshold,
    {
        let mut i: usize = 0;
        while i < segments.len()
            invariant
                i <= segments.len(),
                self.marked@ == marks_upto(segments_view(segments@), i as int),
                self.stats == old(self).stats,
                self.threshold == old(self).threshold,
            decreases segments.len() - i,
        {
            if self.is_root_segment(&segments[i]) {
                self.mark_segment(i as u32);
            }
            i += 1;
        }
    }

    /// Marks one position.
    fn mark_segment(&mut self, segment_id: u32)
        ensures
            final(self).marked@ == old(self).marked@.insert(segment_id),
            final(self).stats == old(self).stats,
            final(self).threshold == old(self).threshold,
    {
        self.marked.insert(segment_id);
    }

    /// Removes the segments that the sweep finds unmarked, and counts them,
    /// once as segments and once as pages.
    fn sweep(&mut self, segments: &mut Vec<MemorySegment>, page_table: &mut PageTable) -> (r: (
        usize,
        usize,
    ))
        ensures
            segments_view(final(segments)@) == sweep_from(
                segments_view(old(segments)@),
                old(self).marked@,
                0,
            ),
            r.0 == old(segments)@.len() - final(segments)@.len(),
            r.1 == r.0,
            final(self).marked@ == old(self).marked@,
            final(self).stats == old(self).stats,
            final(self).threshold == old(self).threshold,
            *final(page_table) == *old(page_table),
    {
        let mut freed_segments: usize = 0;
        let mut freed_pages: usize = 0;
        let mut i: usize = 0;
        while i < segments.len()
            invariant
                i <= segments.len(),
                segments.len() + freed_segments == old(segments).len(),
                freed_pages == freed_segments,
                sweep_from(segments_view(segments@), self.marked@, i as int) == sweep_from(
                    segments_view(old(segments)@),
                    old(self).marked@,
                    0,
                ),
                self.marked@ == old(self).marked@,
                self.stats == old(self).stats,
                self.threshold == old(self).threshold,
                *page_table == *old(page_table),
            decreases segments.len() - i,
        {
            let ghost before = segments_view(segments@);
            if !self.marked.contains(&(i as u32)) {
                segments.remove(i);
                assert(segments_view(segments@) =~= before.remove(i as int));
                freed_segments += 1;
                freed_pages += 1;
            } else {
                i += 1;
            }
        }
        (freed_segments, freed_pages)
    }

    /// Whether a segment is a root: shared, or owned.
    fn is_root_segment(&self, segment: &MemorySegment) -> (r: bool)
        ensures
            r == is_root(segment@),
    {
        segment.is_shared() || segment.owner_id().is_some()
    }

    /// The amount of memory in use from which a collection is due.
    pub fn threshold(&self) -> (r: usize)
        ensures
            r == self.spec_threshold(),
    {
        self.threshold
    }

    /// The statistics so far.
    pub fn stats(&self) -> (r: &GCStats)
        ensures
            *r == self.spec_stats(),
    {
        &self.stats
    }
}

} // verus!
