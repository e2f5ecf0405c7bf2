//! A table of fixed-size pages, each with its flags.

use crate::memory::MemoryError;
use std::collections::HashMap;
use vstd::prelude::*;

verus! {

broadcast use vstd::std_specs::hash::group_hash_axioms;

/// The flags of a page.
#[derive(Clone, Copy, Debug, PartialEq, Eq, Structural)]
pub struct PageFlags {
    pub present: bool,
    pub writable: bool,
    pub executable: bool,
    pub user_accessible: bool,
    pub dirty: bool,
    pub accessed: bool,
}

impl Default for PageFlags {
    fn default() -> (r: Self)
        ensures
            r == fresh_flags(),
    {
        PageFlags {
            present: true,
            writable: true,
            executable: false,
            user_accessible: true,
            dirty: false,
            accessed: false,
        }
    }
}

/// The flags of a page that was just allocated: present, writable and
/// open to users; not executable, and untouched.
pub open spec fn fresh_flags() -> PageFlags {
    PageFlags {
        present: true,
        writable: true,
        executable: false,
        user_accessible: true,
        dirty: false,
        accessed: false,
    }
}

/// A page: its bytes and its flags.
#[derive(Debug)]
pub struct Page {
    data: Vec<u8>,
    flags: PageFlags,
}

pub struct PageView {
    pub data: Seq<u8>,
    pub flags: PageFlags,
}

impl View for Page {
    type V = PageView;

    closed spec fn view(&self) -> PageView {
        PageView { data: self.data@, flags: self.flags }
    }
}

/// `n` zero bytes.
pub open spec fn zeros(n: nat) -> Seq<u8> {
    Seq::new(n, |i: int| 0u8)
}

/// A vector of `n` zero bytes.
fn zeroed(n: usize) -> (v: Vec<u8>)
    ensures
        v@ == zeros(n as nat),
{
    let mut v: Vec<u8> = Vec::new();
    let mut i: usize = 0;
    while i < n
        invariant
            i <= n,
            v@ == zeros(i as nat),
        decreases n - i,
    {
        v.push(0);
        i += 1;
        assert(v@ =~= zeros(i as nat));
    }
    v
}

impl Page {
    /// A page of `size` zero bytes with the flags of a fresh page.
    pub fn new(size: usize) -> (p: Self)
        ensures
            p@ == (PageView { data: zeros(size as nat), flags: fresh_flags() }),
    {
        Page { data: zeroed(size), flags: PageFlags::default() }
    }

    /// Zeroes the page and marks it untouched. The other flags stay.
    pub fn clear(&mut self)
        ensures
            final(self)@ == (PageView {
                data: zeros(old(self)@.data.len()),
                flags: PageFlags { dirty: false, accessed: false, ..old(self)@.flags },
            }),
    {
        let n = self.data.len();
        self.data = zeroed(n);
        self.flags.dirty = false;
        self.flags.accessed = false;
    }
}

/// The pages by number, the numbers that were freed and wait to be used
/// again, and the next number that was never used.
#[derive(Debug)]
pub struct PageTable {
    pages: HashMap<u32, Page>,
    free_pages: Vec<u32>,
    page_size: usize,
    next_page_id: u32,
}

pub struct PageTableView {
    pub pages: Map<u32, PageView>,
    pub free_pages: Seq<u32>,
    pub page_size: usize,
    pub next_page_id: u32,
}

impl View for PageTable {
    type V = PageTableView;

    closed spec fn view(&self) -> PageTableView {
        PageTableView {
            pages: Map::new(|id: u32| self.pages@.contains_key(id), |id: u32| self.pages@[id]@),
            free_pages: self.free_pages@,
            page_size: self.page_size,
            next_page_id: self.next_page_id,
        }
    }
}

/// Whether `[offset, offset + len)` lies within a page of `page_size` bytes.
pub open spec fn in_page(page_size: usize, offset: usize, len: int) -> bool {
    offset + len <= page_size
}

/// The bytes `data` with `patch` written over them from `offset` on.
pub open spec fn patched(data: Seq<u8>, offset: int, patch: Seq<u8>) -> Seq<u8> {
    Seq::new(
        data.len(),
        |i: int|
            if offset <= i < offset + patch.len() {
                patch[i - offset]
            } else {
                data[i]
            },
    )
}

/// A table after one more page was allocated, with the number of that
/// page: the number freed last where one waits, else the next unused
/// number. There is none where the numbers have run out.
pub open spec fn allocation(t: PageTableView) -> Option<(PageTableView, u32)> {
    let fresh = PageView { data: zeros(t.page_size as nat), flags: fresh_flags() };
    if t.free_pages.len() > 0 {
        let id = t.free_pages.last();
        Some(
            (
                PageTableView {
                    pages: t.pages.insert(id, fresh),
                    free_pages: t.free_pages.drop_last(),
                    ..t
                },
                id,
            ),
        )
    } else if t.next_page_id < u32::MAX {
        let id = t.next_page_id;
        Some(
            (
                PageTableView {
                    pages: t.pages.insert(id, fresh),
                    next_page_id: (id + 1) as u32,
                    ..t
                },
                id,
            ),
        )
    } else {
        None
    }
}

/// A table after `n` more pages were allocated, if the numbers reach.
pub open spec fn allocations(t: PageTableView, n: nat) -> Option<PageTableView>
    decreases n,
{
    if n == 0 {
        Some(t)
    } else {
        match allocation(t) {
            Some((next, _)) => allocations(next, (n - 1) as nat),
            None => None,
        }
    }
}

impl PageTable {
    /// Every page has the table's page size.
    pub open spec fn wf(&self) -> bool {
        forall|id: u32| #[trigger]
            self@.pages.contains_key(id) ==> self@.pages[id].data.len() == self@.page_size
    }

    /// An empty table of pages of `page_size` bytes.
    pub fn new(page_size: usize) -> (r: Self)
        ensures
            r.wf(),
            r@ == (PageTableView {
                pages: Map::empty(),
                free_pages: Seq::empty(),
                page_size,
                next_page_id: 0,
            }),
    {
        let r = PageTable { pages: HashMap::new(), free_pages: Vec::new(), page_size, next_page_id: 0 };
        assert(r@.pages =~= Map::<u32, PageView>::empty());
        r
    }

    /// Allocates a zeroed page and returns its number: the number freed
    /// last where one waits, else the next unused number. Where the numbers
    /// have run out, the table is out of memory and stays as it was.
    pub fn allocate_page(&mut self) -> (r: Result<u32, MemoryError>)
        requires
            old(self).wf(),
        ensures
            final(self).wf(),
            match r {
                Ok(id) => allocation(old(self)@) == Some((final(self)@, id)),
                Err(e) => e == MemoryError::OutOfMemory && allocation(old(self)@) is None
                    && final(self)@ == old(self)@,
            },
            match r {
                Ok(id) => {
                    let fresh = PageView {
                        data: zeros(old(self)@.page_size as nat),
                        flags: fresh_flags(),
                    };
                    if old(self)@.free_pages.len() > 0 {
                        id == old(self)@.free_pages.last() && final(self)@ == (PageTableView {
                            pages: old(self)@.pages.insert(id, fresh),
                            free_pages: old(self)@.free_pages.drop_last(),
                            ..old(self)@
                        })
                    } else {
                        id == old(self)@.next_page_id && id < u32::MAX && final(self)@
                            == (PageTableView {
                            pages: old(self)@.pages.insert(id, fresh),
                            next_page_id: (id + 1) as u32,
                            ..old(self)@
                        })
                    }
                },
                Err(e) => e == MemoryError::OutOfMemory && old(self)@.free_pages.len() == 0
                    && old(self)@.next_page_id == u32::MAX && final(self)@ == old(self)@,
            },
    {
        let page_id = match self.free_pages.pop() {
            Some(id) => id,
            None => {
                let id = self.next_page_id;
                match id.checked_add(1) {
                    Some(next) => {
                        self.next_page_id = next;
                    },
                    None => {
                        assert(self@.free_pages =~= old(self)@.free_pages);
                        assert(self@.pages =~= old(self)@.pages);
                        return Err(MemoryError::OutOfMemory);
                    },
                }
                id
            },
        };
        let page = Page::new(self.page_size);
        self.pages.insert(page_id, page);
        assert(self@.pages =~= old(self)@.pages.insert(
            page_id,
            PageView { data: zeros(old(self)@.page_size as nat), flags: fresh_flags() },
        ));
        proof {
            if old(self)@.free_pages.len() == 0 {
                assert(self@.free_pages =~= old(self)@.free_pages);
            }
        }
        Ok(page_id)
    }

    /// Frees the page `page_id`, whose number can then be handed out again.
    /// Nothing happens where there is no such page.
    pub fn free_page(&mut self, page_id: u32)
        requires
            old(self).wf(),
        ensures
            final(self).wf(),
            final(self)@ == (if old(self)@.pages.contains_key(page_id) {
                PageTableView {
                    pages: old(self)@.pages.remove(page_id),
                    free_pages: old(self)@.free_pages.push(page_id),
                    ..old(self)@
                }
            } else {
                old(self)@
            }),
    {
        if self.pages.remove(&page_id).is_some() {
            self.free_pages.push(page_id);
            assert(self@.pages =~= old(self)@.pages.remove(page_id));
        } else {
            assert(self@.pages =~= old(self)@.pages);
        }
    }

    /// Reads `size` bytes from `offset` on in the page `page_id`. A page
    /// that is missing or not present, or a range that leaves the page, is a
    /// page fault at the page's number.
    pub fn read(&self, page_id: u32, offset: usize, size: usize) -> (r: Result<
        Vec<u8>,
        MemoryError,
    >)
        requires
            self.wf(),
        ensures
            match r {
                Ok(bytes) => self@.pages.contains_key(page_id) && self@.pages[page_id].flags.present
                    && in_page(self@.page_size, offset, size as int) && bytes@
                    == self@.pages[page_id].data.subrange(offset as int, offset + size),
                Err(e) => e == MemoryError::PageFault(page_id as usize) && !(
                self@.pages.contains_key(page_id) && self@.pages[page_id].flags.present && in_page(
                    self@.page_size,
                    offset,
                    size as int,
                )),
            },
    {
        let page = match self.pages.get(&page_id) {
            Some(page) => page,
            None => { return Err(MemoryError::PageFault(page_id as usize)); },
        };
        assert(self@.pages[page_id] == page@);
        if !page.flags.present {
            return Err(MemoryError::PageFault(page_id as usize));
        }
        if offset > self.page_size || size > self.page_size - offset {
            return Err(MemoryError::PageFault(page_id as usize));
        }
        assert(self@.pages.contains_key(page_id));
        let mut bytes: Vec<u8> = Vec::new();
        assert(bytes@ =~= page.data@.subrange(offset as int, offset as int));
        let mut i: usize = 0;
        while i < size
            invariant
                i <= size,
                offset + size <= page.data.len(),
                bytes@ == page.data@.subrange(offset as int, offset + i),
            decreases size - i,
        {
            bytes.push(page.data[offset + i]);
            i += 1;
            assert(bytes@ =~= page.data@.subrange(offset as int, offset + i));
        }
        Ok(bytes)
    }

    /// Writes `data` into the page `page_id` from `offset` on and marks the
    /// page dirty and accessed. A page that is missing, not present or not
    /// writable, or a range that leaves the page, is a page fault at the
    /// page's number, and nothing is written.
    pub fn write(&mut self, page_id: u32, offset: usize, data: &[u8]) -> (r: Result<
        (),
        MemoryError,
    >)
        requires
            old(self).wf(),
        ensures
            final(self).wf(),
            match r {
                Ok(()) => {
                    let page = old(self)@.pages[page_id];
                    &&& old(self)@.pages.contains_key(page_id)
                    &&& page.flags.present && page.flags.writable
                    &&& in_page(old(self)@.page_size, offset, data@.len() as int)
                    &&& final(self)@ == (PageTableView {
                        pages: old(self)@.pages.insert(
                            page_id,
                            PageView {
                                data: patched(page.data, offset as int, data@),
                                flags: PageFlags { dirty: true, accessed: true, ..page.flags },
                            },
                        ),
                        ..old(self)@
                    })
                },
                Err(e) => e == MemoryError::PageFault(page_id as usize) && final(self)@
                    == old(self)@ && !(old(self)@.pages.contains_key(page_id)
                    && old(self)@.pages[page_id].flags.present
                    && old(self)@.pages[page_id].flags.writable
                    && in_page(old(self)@.page_size, offset, data@.len() as int)),
            },
    {
        match self.pages.get(&page_id) {
            Some(page) => {
                assert(self@.pages[page_id] == page@);
                if !page.flags.present || !page.flags.writable {
                    return Err(MemoryError::PageFault(page_id as usize));
                }
            },
            None => { return Err(MemoryError::PageFault(page_id as usize)); },
        }
        if offset > self.page_size || data.len() > self.page_size - offset {
            return Err(MemoryError::PageFault(page_id as usize));
        }
        assert(self@.pages.contains_key(page_id));
        let mut page = self.pages.remove(&page_id).unwrap();
        let ghost before = page@;
        assert(before == old(self)@.pages[page_id]);
        assert(page.data@ =~= patched(before.data, offset as int, data@.take(0)));
        let mut i: usize = 0;
        while i < data.len()
            invariant
                i <= data.len(),
                offset + data.len() <= page.data.len(),
                page.data.len() == before.data.len(),
                page.flags == before.flags,
                page.data@ == patched(before.data, offset as int, data@.take(i as int)),
            decreases data.len() - i,
        {
            page.data[offset + i] = data[i];
            i += 1;
            assert(page.data@ =~= patched(before.data, offset as int, data@.take(i as int)));
        }
        assert(data@.take(data.len() as int) =~= data@);
        page.flags.dirty = true;
        page.flags.accessed = true;
        let ghost after = page@;
        self.pages.insert(page_id, page);
        assert(self@.pages =~= old(self)@.pages.insert(page_id, after));
        Ok(())
    }

    /// Sets the flags of the page `page_id`; a page fault where there is no
    /// such page.
    pub fn set_flags(&mut self, page_id: u32, flags: PageFlags) -> (r: Result<(), MemoryError>)
        requires
            old(self).wf(),
        ensures
            final(self).wf(),
            match r {
                Ok(()) => old(self)@.pages.contains_key(page_id) && final(self)@ == (PageTableView {
                    pages: old(self)@.pages.insert(
                        page_id,
                        PageView { data: old(self)@.pages[page_id].data, flags },
                    ),
                    ..old(self)@
                }),
                Err(e) => e == MemoryError::PageFault(page_id as usize)
                    && !old(self)@.pages.contains_key(page_id) && final(self)@ == old(self)@,
            },
    {
        match self.pages.remove(&page_id) {
            Some(page) => {
                let ghost before = page@;
                let mut page = page;
                page.flags = flags;
                let ghost after = page@;
                self.pages.insert(page_id, page);
                assert(self@.pages =~= old(self)@.pages.insert(page_id, after));
                Ok(())
            },
            None => {
                assert(self@.pages =~= old(self)@.pages);
                Err(MemoryError::PageFault(page_id as usize))
            },
        }
    }

    /// The flags of the page `page_id`; a page fault where there is no such
    /// page.
    pub fn get_flags(&self, page_id: u32) -> (r: Result<PageFlags, MemoryError>)
        ensures
            match r {
                Ok(flags) => self@.pages.contains_key(page_id) && flags
                    == self@.pages[page_id].flags,
                Err(e) => e == MemoryError::PageFault(page_id as usize) && !self@.pages.contains_key(
                    page_id,
                ),
            },
    {
        match self.pages.get(&page_id) {
            Some(page) => {
                assert(self@.pages[page_id] == page@);
                Ok(page.flags)
            },
            None => Err(MemoryError::PageFault(page_id as usize)),
        }
    }

    /// The size of every page of this table.
    pub fn page_size(&self) -> (r: usize)
        ensures
            r == self@.page_size,
    {
        self.page_size
    }
}

} // verus!
