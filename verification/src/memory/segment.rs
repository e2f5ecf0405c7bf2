//! Memory segments: typed ranges of addresses that may grow up to a limit.

use crate::clock::now;
use crate::memory::MemoryError;
use std::time::SystemTime;
use vstd::prelude::*;

verus! {

/// What a segment is used for.
#[derive(Debug, Clone, Copy, PartialEq, Eq, Structural)]
pub enum SegmentType {
    Code,
    Data,
    Stack,
    Heap,
}

/// The size up to which a stack segment may grow: one mebibyte.
pub const STACK_SEGMENT_LIMIT: usize = 1024 * 1024;

/// Bookkeeping of a segment.
#[derive(Debug)]
struct SegmentMetadata {
    creation_time: SystemTime,
    last_access: SystemTime,
    reference_count: usize,
    is_shared: bool,
    owner_id: Option<u32>,
}

impl SegmentMetadata {
    /// The bookkeeping of a segment that was just created: one reference,
    /// not shared, no owner.
    fn new() -> (r: Self)
        ensures
            r.reference_count == 1,
            !r.is_shared,
            r.owner_id is None,
    {
        SegmentMetadata {
            creation_time: now(),
            last_access: now(),
            reference_count: 1,
            is_shared: false,
            owner_id: None,
        }
    }
}

/// A segment of memory.
#[derive(Debug)]
pub struct MemorySegment {
    segment_type: SegmentType,
    base: usize,
    size: usize,
    max_size: usize,
    is_growable: bool,
    metadata: SegmentMetadata,
}

/// What a segment is.
pub struct SegmentView {
    pub segment_type: SegmentType,
    pub base: usize,
    pub size: usize,
    pub max_size: usize,
    pub is_growable: bool,
    pub reference_count: usize,
    pub is_shared: bool,
    pub owner_id: Option<u32>,
    pub creation_time: SystemTime,
    pub last_access: SystemTime,
}

impl View for MemorySegment {
    type V = SegmentView;

    closed spec fn view(&self) -> SegmentView {
        SegmentView {
            segment_type: self.segment_type,
            base: self.base,
            size: self.size,
            max_size: self.max_size,
            is_growable: self.is_growable,
            reference_count: self.metadata.reference_count,
            is_shared: self.metadata.is_shared,
            owner_id: self.metadata.owner_id,
            creation_time: self.metadata.creation_time,
            last_access: self.metadata.last_access,
        }
    }
}

/// The size up to which a new segment of `size` bytes may grow, if such a
/// segment can be made: code never grows, data may double, a stack may grow
/// to `STACK_SEGMENT_LIMIT`, a heap without bound.
pub open spec fn growth_limit(segment_type: SegmentType, size: usize) -> Option<usize> {
    match segment_type {
        SegmentType::Code => Some(size),
        SegmentType::Data => if size * 2 <= usize::MAX {
            Some((size * 2) as usize)
        } else {
            None
        },
        SegmentType::Stack => Some(STACK_SEGMENT_LIMIT),
        SegmentType::Heap => Some(usize::MAX),
    }
}

impl MemorySegment {
    /// A new segment of `size` bytes at base 0. An empty segment, or a data
    /// segment whose doubled size no address could reach, is refused as out
    /// of memory.
    pub fn new(segment_type: SegmentType, size: usize) -> (r: Result<Self, MemoryError>)
        ensures
            match r {
                Ok(s) => size != 0 && growth_limit(segment_type, size) == Some(s@.max_size)
                    && s@ == (SegmentView {
                    segment_type,
                    base: 0,
                    size,
                    is_growable: segment_type != SegmentType::Code,
                    reference_count: 1,
                    is_shared: false,
                    owner_id: None,
                    ..s@
                }),
                Err(e) => e == MemoryError::OutOfMemory && (size == 0 || growth_limit(
                    segment_type,
                    size,
                ) is None),
            },
    {
        if size == 0 {
            return Err(MemoryError::OutOfMemory);
        }
        let (max_size, is_growable) = match segment_type {
            SegmentType::Code => (size, false),
            SegmentType::Data => match size.checked_mul(2) {
                Some(doubled) => (doubled, true),
                None => { return Err(MemoryError::OutOfMemory); },
            },
            SegmentType::Stack => (STACK_SEGMENT_LIMIT, true),
            SegmentType::Heap => (usize::MAX, true),
        };
        Ok(
            MemorySegment {
                segment_type,
                base: 0,
                size,
                max_size,
                is_growable,
                metadata: SegmentMetadata::new(),
            },
        )
    }

    /// Sets the size to `new_size`. A segment that cannot grow refuses with
    /// a segment fault at its base; a size above the limit is out of memory.
    /// A refusal changes nothing.
    pub fn resize(&mut self, new_size: usize) -> (r: Result<(), MemoryError>)
        ensures
            match r {
                Ok(()) => old(self)@.is_growable && new_size <= old(self)@.max_size && final(self)@
                    == (SegmentView { size: new_size, ..old(self)@ }),
                Err(e) => final(self)@ == old(self)@ && (if !old(self)@.is_growable {
                    e == MemoryError::SegmentFault(old(self)@.base)
                } else {
                    e == MemoryError::OutOfMemory && new_size > old(self)@.max_size
                }),
            },
    {
        if !self.is_growable {
            return Err(MemoryError::SegmentFault(self.base));
        }
        if new_size > self.max_size {
            return Err(MemoryError::OutOfMemory);
        }
        self.size = new_size;
        Ok(())
    }

    /// Whether `address` lies in `[base, base + size)`.
    pub fn contains(&self, address: usize) -> (r: bool)
        ensures
            r == (self@.base <= address && address < self@.base + self@.size),
    {
        address >= self.base && address - self.base < self.size
    }

    /// How far `address` lies above the base, if the segment contains it.
    pub fn offset(&self, address: usize) -> (r: Option<usize>)
        ensures
            r == (if self@.base <= address && address < self@.base + self@.size {
                Some((address - self@.base) as usize)
            } else {
                None
            }),
    {
        if self.contains(address) {
            Some(address - self.base)
        } else {
            None
        }
    }

    pub fn segment_type(&self) -> (r: SegmentType)
        ensures
            r == self@.segment_type,
    {
        self.segment_type
    }

    pub fn size(&self) -> (r: usize)
        ensures
            r == self@.size,
    {
        self.size
    }

    pub fn base(&self) -> (r: usize)
        ensures
            r == self@.base,
    {
        self.base
    }

    pub fn set_base(&mut self, base: usize)
        ensures
            final(self)@ == (SegmentView { base, ..old(self)@ }),
    {
        self.base = base;
    }

    pub fn is_growable(&self) -> (r: bool)
        ensures
            r == self@.is_growable,
    {
        self.is_growable
    }

    pub fn max_size(&self) -> (r: usize)
        ensures
            r == self@.max_size,
    {
        self.max_size
    }

    /// The number of references held to this segment.
    pub fn reference_count(&self) -> (r: usize)
        ensures
            r == self@.reference_count,
    {
        self.metadata.reference_count
    }

    /// Counts one more reference.
    pub fn increment_ref_count(&mut self)
        requires
            old(self)@.reference_count < usize::MAX,
        ensures
            final(self)@ == (SegmentView {
                reference_count: (old(self)@.reference_count + 1) as usize,
                ..old(self)@
            }),
    {
        self.metadata.reference_count += 1;
    }

    /// Counts one reference less, never below zero, and returns the count.
    pub fn decrement_ref_count(&mut self) -> (r: usize)
        ensures
            r == (if old(self)@.reference_count == 0 {
                0
            } else {
                old(self)@.reference_count - 1
            }),
            final(self)@ == (SegmentView { reference_count: r, ..old(self)@ }),
    {
        if self.metadata.reference_count > 0 {
            self.metadata.reference_count -= 1;
        }
        self.metadata.reference_count
    }

    pub fn set_shared(&mut self, shared: bool)
        ensures
            final(self)@ == (SegmentView { is_shared: shared, ..old(self)@ }),
    {
        self.metadata.is_shared = shared;
    }

    pub fn is_shared(&self) -> (r: bool)
        ensures
            r == self@.is_shared,
    {
        self.metadata.is_shared
    }

    pub fn set_owner(&mut self, owner_id: u32)
        ensures
            final(self)@ == (SegmentView { owner_id: Some(owner_id), ..old(self)@ }),
    {
        self.metadata.owner_id = Some(owner_id);
    }

    pub fn owner_id(&self) -> (r: Option<u32>)
        ensures
            r == self@.owner_id,
    {
        self.metadata.owner_id
    }

    /// Stamps the segment with the present time. Nothing else changes.
    pub fn update_access_time(&mut self)
        ensures
            final(self)@ == (SegmentView { last_access: final(self)@.last_access, ..old(self)@ }),
    {
        self.metadata.last_access = now();
    }

    /// When the segment was last stamped.
    pub fn last_access_time(&self) -> (r: SystemTime)
        ensures
            r == self@.last_access,
    {
        self.metadata.last_access
    }

    /// When the segment was created.
    pub fn creation_time(&self) -> (r: SystemTime)
        ensures
            r == self@.creation_time,
    {
        self.metadata.creation_time
    }
}

} // verus!
