//! The physical page cache behind file-backed `MAP_SHARED` mappings: one
//! frame per (inode, page-aligned offset), counted by the page-table
//! mappings that use it, so every process mapping a file page sees the
//! same memory. Reading and writing the file data is the caller's part.
use vstd::prelude::*;
use crate::paging::{PageManager, MAX_PAGE, PAGE_SIZE};

verus! {

#[derive(Clone, Copy, Debug, PartialEq, Eq, Structural)]
pub struct SharedPage {
    pub inode: u32,
    pub offset: u64,
    pub frame: u32,
    pub refs: u32,
    /// Bytes of the file the page holds (written back when it goes).
    pub write_len: usize,
}

pub struct SharedPageCache {
    pub pages: Vec<SharedPage>,
}

/// What releasing a frame's mapping means for the frame.
#[derive(Clone, Copy, Debug, PartialEq, Eq, Structural)]
pub enum SharedFrameRelease {
    /// The frame is no cached page: free it.
    NotShared,
    /// Other mappings still use it.
    Retained,
    /// That was the last mapping: write the page back, then free it.
    Last,
}

/// Why a shared mapping cannot be set up.
#[derive(Clone, Copy, Debug, PartialEq, Eq, Structural)]
pub enum SharedMapError {
    Unaligned,
    NoMetadata,
    BeyondEnd,
}

/// The first cached page for (`inode`, `offset`).
pub open spec fn find_page(s: Seq<SharedPage>, inode: u32, offset: u64) -> Option<int>
    decreases s.len(),
{
    if s.len() == 0 {
        None
    } else {
        match find_page(s.drop_last(), inode, offset) {
            Some(i) => Some(i),
            None => if s.last().inode == inode && s.last().offset == offset {
                Some(s.len() - 1)
            } else {
                None
            },
        }
    }
}

/// The first cached page holding `frame`.
pub open spec fn find_frame(s: Seq<SharedPage>, frame: u32) -> Option<int>
    decreases s.len(),
{
    if s.len() == 0 {
        None
    } else {
        match find_frame(s.drop_last(), frame) {
            Some(i) => Some(i),
            None => if s.last().frame == frame {
                Some(s.len() - 1)
            } else {
                None
            },
        }
    }
}

proof fn lemma_find_page_step(s: Seq<SharedPage>, i: int, inode: u32, offset: u64)
    requires
        0 <= i < s.len(),
        find_page(s.subrange(0, i), inode, offset) is None,
    ensures
        find_page(s.subrange(0, i + 1), inode, offset) == (if s[i].inode == inode && s[i].offset == offset {
            Some(i)
        } else {
            None::<int>
        }),
{
    assert(s.subrange(0, i + 1).drop_last() =~= s.subrange(0, i));
}

proof fn lemma_find_frame_step(s: Seq<SharedPage>, i: int, frame: u32)
    requires
        0 <= i < s.len(),
        find_frame(s.subrange(0, i), frame) is None,
    ensures
        find_frame(s.subrange(0, i + 1), frame) == (if s[i].frame == frame { Some(i) } else { None::<int> }),
{
    assert(s.subrange(0, i + 1).drop_last() =~= s.subrange(0, i));
}

proof fn lemma_find_page_found(s: Seq<SharedPage>, i: int, inode: u32, offset: u64)
    requires
        0 <= i < s.len(),
        find_page(s.subrange(0, i + 1), inode, offset) == Some(i),
    ensures
        find_page(s, inode, offset) == Some(i),
    decreases s.len() - i,
{
    if s.len() == i + 1 {
        assert(s.subrange(0, i + 1) =~= s);
    } else {
        assert(s.drop_last().subrange(0, i + 1) =~= s.subrange(0, i + 1));
        lemma_find_page_found(s.drop_last(), i, inode, offset);
    }
}

proof fn lemma_find_frame_found(s: Seq<SharedPage>, i: int, frame: u32)
    requires
        0 <= i < s.len(),
        find_frame(s.subrange(0, i + 1), frame) == Some(i),
    ensures
        find_frame(s, frame) == Some(i),
    decreases s.len() - i,
{
    if s.len() == i + 1 {
        assert(s.subrange(0, i + 1) =~= s);
    } else {
        assert(s.drop_last().subrange(0, i + 1) =~= s.subrange(0, i + 1));
        lemma_find_frame_found(s.drop_last(), i, frame);
    }
}

proof fn lemma_find_page_result(s: Seq<SharedPage>, inode: u32, offset: u64)
    ensures
        find_page(s, inode, offset) matches Some(i) ==> 0 <= i < s.len() && s[i].inode == inode && s[i].offset == offset,
    decreases s.len(),
{
    if s.len() > 0 {
        lemma_find_page_result(s.drop_last(), inode, offset);
    }
}

proof fn lemma_find_frame_result(s: Seq<SharedPage>, frame: u32)
    ensures
        find_frame(s, frame) matches Some(i) ==> 0 <= i < s.len() && s[i].frame == frame,
    decreases s.len(),
{
    if s.len() > 0 {
        lemma_find_frame_result(s.drop_last(), frame);
    }
}

impl SharedPageCache {
    pub fn new() -> (r: Self)
        ensures
            r.pages@ == Seq::<SharedPage>::empty(),
    {
        SharedPageCache { pages: Vec::new() }
    }

    fn position_page(&self, inode: u32, offset: u64) -> (r: Option<usize>)
        ensures
            r == (match find_page(self.pages@, inode, offset) { Some(i) => Some(i as usize), None => None::<usize> }),
    {
        let mut i: usize = 0;
        while i < self.pages.len()
            invariant
                0 <= i <= self.pages@.len(),
                find_page(self.pages@.subrange(0, i as int), inode, offset) is None,
            decreases self.pages@.len() - i,
        {
            proof {
                lemma_find_page_step(self.pages@, i as int, inode, offset);
            }
            if self.pages[i].inode == inode && self.pages[i].offset == offset {
                proof {
                    lemma_find_page_found(self.pages@, i as int, inode, offset);
                }
                return Some(i);
            }
            i = i + 1;
        }
        assert(self.pages@.subrange(0, self.pages@.len() as int) =~= self.pages@);
        None
    }

    fn position_frame(&self, frame: u32) -> (r: Option<usize>)
        ensures
            r == (match find_frame(self.pages@, frame) { Some(i) => Some(i as usize), None => None::<usize> }),
    {
        let mut i: usize = 0;
        while i < self.pages.len()
            invariant
                0 <= i <= self.pages@.len(),
                find_frame(self.pages@.subrange(0, i as int), frame) is None,
            decreases self.pages@.len() - i,
        {
            proof {
                lemma_find_frame_step(self.pages@, i as int, frame);
            }
            if self.pages[i].frame == frame {
                proof {
                    lemma_find_frame_found(self.pages@, i as int, frame);
                }
                return Some(i);
            }
            i = i + 1;
        }
        assert(self.pages@.subrange(0, self.pages@.len() as int) =~= self.pages@);
        None
    }

    /// Take one more mapping of the cached page for (`inode`, `offset`),
    /// if there is one, and give its frame. The count saturates.
    pub fn acquire_cached(&mut self, inode: u32, offset: u64) -> (r: Option<u32>)
        ensures
            match find_page(old(self).pages@, inode, offset) {
                Some(i) => r == Some(old(self).pages@[i].frame) && final(self).pages@ == old(self).pages@.update(
                    i,
                    SharedPage {
                        refs: if old(self).pages@[i].refs < u32::MAX { (old(self).pages@[i].refs + 1) as u32 } else { u32::MAX },
                        ..old(self).pages@[i]
                    },
                ),
                None => r is None && final(self).pages@ == old(self).pages@,
            },
    {
        let _n = self.pages.len();
        proof {
            lemma_find_page_result(self.pages@, inode, offset);
        }
        match self.position_page(inode, offset) {
            Some(i) => {
                let mut page = self.pages[i];
                page.refs = if page.refs < u32::MAX { page.refs + 1 } else { u32::MAX };
                self.pages.set(i, page);
                Some(page.frame)
            },
            None => None,
        }
    }

    /// Add the page just filled in `frame`, unless another caller cached
    /// the same file page meanwhile: then that page gains a mapping and
    /// its frame is used, and `frame` is to be freed (`r.1`).
    pub fn insert_or_join(&mut self, inode: u32, offset: u64, frame: u32, write_len: usize) -> (r: (u32, bool))
        ensures
            match find_page(old(self).pages@, inode, offset) {
                Some(i) => r == (old(self).pages@[i].frame, true) && final(self).pages@ == old(self).pages@.update(
                    i,
                    SharedPage {
                        refs: if old(self).pages@[i].refs < u32::MAX { (old(self).pages@[i].refs + 1) as u32 } else { u32::MAX },
                        ..old(self).pages@[i]
                    },
                ),
                None => r == (frame, false) && final(self).pages@ == old(self).pages@.push(
                    SharedPage { inode, offset, frame, refs: 1, write_len },
                ),
            },
    {
        match self.acquire_cached(inode, offset) {
            Some(existing) => (existing, true),
            None => {
                self.pages.push(SharedPage { inode, offset, frame, refs: 1, write_len });
                (frame, false)
            },
        }
    }

    /// Drop one mapping of `frame`. `Last` hands back the page, which the
    /// caller writes back before freeing the frame.
    pub fn release_shared_frame(&mut self, frame: u32) -> (r: (SharedFrameRelease, Option<SharedPage>))
        ensures
            match find_frame(old(self).pages@, frame) {
                None => r == (SharedFrameRelease::NotShared, None::<SharedPage>) && final(self).pages@ == old(self).pages@,
                Some(i) => if old(self).pages@[i].refs > 1 {
                    &&& r == (SharedFrameRelease::Retained, None::<SharedPage>)
                    &&& final(self).pages@ == old(self).pages@.update(
                        i,
                        SharedPage { refs: (old(self).pages@[i].refs - 1) as u32, ..old(self).pages@[i] },
                    )
                } else {
                    &&& r == (SharedFrameRelease::Last, Some(old(self).pages@[i]))
                    &&& final(self).pages@ == old(self).pages@.update(i, old(self).pages@.last()).drop_last()
                },
            },
    {
        let _n = self.pages.len();
        proof {
            lemma_find_frame_result(self.pages@, frame);
        }
        let index = match self.position_frame(frame) {
            Some(i) => i,
            None => return (SharedFrameRelease::NotShared, None),
        };
        let page = self.pages[index];
        if page.refs > 1 {
            let p = SharedPage { refs: page.refs - 1, ..page };
            self.pages.set(index, p);
            assert(find_frame(old(self).pages@, frame) == Some(index as int));
            return (SharedFrameRelease::Retained, None);
        }
        let ghost s = self.pages@;
        let last = self.pages.pop().unwrap();
        if index < self.pages.len() {
            self.pages.set(index, last);
        }
        proof {
            if index as int == s.len() - 1 {
                assert(self.pages@ =~= s.update(index as int, s.last()).drop_last());
            } else {
                assert(self.pages@ =~= s.update(index as int, s.last()).drop_last());
            }
        }
        (SharedFrameRelease::Last, Some(page))
    }
}

/// Check a shared mapping of `inode` at `offset`, given the file's size
/// (`None` when it has no metadata), and give how many bytes of the file
/// the page will hold: up to a page from `offset`.
pub fn shared_page_len(offset: u64, size: Option<u64>) -> (r: Result<usize, SharedMapError>)
    ensures
        offset % PAGE_SIZE as u64 != 0 ==> r == Err::<usize, SharedMapError>(SharedMapError::Unaligned),
        offset % PAGE_SIZE as u64 == 0 && size is None ==> r == Err::<usize, SharedMapError>(SharedMapError::NoMetadata),
        offset % PAGE_SIZE as u64 == 0 && size is Some ==> ({
            let sz = size->Some_0;
            &&& offset >= sz ==> r == Err::<usize, SharedMapError>(SharedMapError::BeyondEnd)
            &&& offset < sz ==> r == Ok::<usize, SharedMapError>(
                (if sz - offset < PAGE_SIZE { (sz - offset) as usize } else { PAGE_SIZE }),
            )
        }),
{
    if offset % (PAGE_SIZE as u64) != 0 {
        return Err(SharedMapError::Unaligned);
    }
    let sz = match size {
        Some(s) => s,
        None => return Err(SharedMapError::NoMetadata),
    };
    if offset >= sz {
        return Err(SharedMapError::BeyondEnd);
    }
    let left = sz - offset;
    if left < PAGE_SIZE as u64 {
        Ok(left as usize)
    } else {
        Ok(PAGE_SIZE)
    }
}

/// Release a user frame: one mapping of a shared page, or a private
/// frame. The frame goes back to the frame allocator unless other shared
/// mappings still hold it; the page to write back, if any, is returned.
pub fn release_user_frame(cache: &mut SharedPageCache, paging: &mut PageManager, frame: u32) -> (r: (
    SharedFrameRelease,
    Option<SharedPage>,
))
    ensures
        match find_frame(old(cache).pages@, frame) {
            None => r.0 == SharedFrameRelease::NotShared,
            Some(i) => r.0 == (if old(cache).pages@[i].refs > 1 {
                SharedFrameRelease::Retained
            } else {
                SharedFrameRelease::Last
            }),
        },
        final(paging).dir == old(paging).dir,
        final(paging).next_free_page == old(paging).next_free_page,
{
    let r = cache.release_shared_frame(frame);
    match r.0 {
        SharedFrameRelease::Retained => {},
        _ => paging.free_phys_frame(frame),
    }
    r
}

/// Taking another mapping of a cached page and then releasing its frame
/// gives back the cache as it was, when that page is the first one holding
/// the frame and already had at least one mapping.
pub proof fn law_acquire_then_release(s: Seq<SharedPage>, inode: u32, offset: u64)
    requires
        find_page(s, inode, offset) is Some,
        ({
            let i = find_page(s, inode, offset)->Some_0;
            1 <= s[i].refs < u32::MAX && find_frame(s, s[i].frame) == Some(i)
        }),
    ensures
        ({
            let i = find_page(s, inode, offset)->Some_0;
            let t = s.update(i, SharedPage { refs: (s[i].refs + 1) as u32, ..s[i] });
            &&& find_frame(t, s[i].frame) == Some(i)
            &&& t[i].refs > 1
            &&& t.update(i, SharedPage { refs: (t[i].refs - 1) as u32, ..t[i] }) == s
        }),
{
    lemma_find_page_result(s, inode, offset);
    let i = find_page(s, inode, offset)->Some_0;
    let t = s.update(i, SharedPage { refs: (s[i].refs + 1) as u32, ..s[i] });
    lemma_find_frame_same(s, t, s[i].frame);
    assert(t.update(i, SharedPage { refs: (t[i].refs - 1) as u32, ..t[i] }) =~= s);
}

/// Lookups by frame only look at frames.
proof fn lemma_find_frame_same(s: Seq<SharedPage>, t: Seq<SharedPage>, frame: u32)
    requires
        s.len() == t.len(),
        forall|k: int| 0 <= k < s.len() ==> (#[trigger] s[k]).frame == t[k].frame,
    ensures
        find_frame(s, frame) == find_frame(t, frame),
    decreases s.len(),
{
    if s.len() > 0 {
        lemma_find_frame_same(s.drop_last(), t.drop_last(), frame);
    }
}

/// The spec of [`shared_page_len`].
pub open spec fn spec_shared_page_len(offset: u64, size: Option<u64>) -> Result<usize, SharedMapError> {
    if offset % PAGE_SIZE as u64 != 0 {
        Err(SharedMapError::Unaligned)
    } else {
        match size {
            None => Err(SharedMapError::NoMetadata),
            Some(sz) => if offset >= sz {
                Err(SharedMapError::BeyondEnd)
            } else {
                Ok((if sz - offset < PAGE_SIZE { (sz - offset) as usize } else { PAGE_SIZE }))
            },
        }
    }
}

/// The frame holding the page of file `inode` at `offset` for a shared
/// mapping. The offset must be page aligned. A cached page gains a mapping
/// and is used as it is, with no file I/O. Otherwise `size(inode)` gives the
/// file's size (`None` without metadata); a page inside the file gets the
/// next frame, which `fill(frame, inode, offset)` zeroes and reads the file
/// into, and is cached with one mapping.
pub fn acquire_file_page<S: FnOnce(u32) -> Option<u64>, F: FnOnce(u32, u32, u64)>(
    cache: &mut SharedPageCache,
    paging: &mut PageManager,
    inode: u32,
    offset: u64,
    size: S,
    fill: F,
) -> (r: Result<u32, SharedMapError>)
    requires
        old(paging).next_free_page < MAX_PAGE,
        forall|ino: u32| #[trigger] size.requires((ino,)),
        forall|fr: u32, ino: u32, off: u64| #[trigger] fill.requires((fr, ino, off)),
    ensures
        final(paging).dir == old(paging).dir,
        offset % PAGE_SIZE as u64 != 0 ==> r == Err::<u32, SharedMapError>(SharedMapError::Unaligned)
            && final(cache).pages@ == old(cache).pages@ && final(paging).next_free_page == old(paging).next_free_page,
        offset % PAGE_SIZE as u64 == 0 && find_page(old(cache).pages@, inode, offset) is Some ==> ({
            let i = find_page(old(cache).pages@, inode, offset)->Some_0;
            &&& r == Ok::<u32, SharedMapError>(old(cache).pages@[i].frame)
            &&& final(cache).pages@ == old(cache).pages@.update(i, SharedPage {
                refs: if old(cache).pages@[i].refs < u32::MAX { (old(cache).pages@[i].refs + 1) as u32 } else { u32::MAX },
                ..old(cache).pages@[i]
            })
            &&& final(paging).next_free_page == old(paging).next_free_page
        }),
        offset % PAGE_SIZE as u64 == 0 && find_page(old(cache).pages@, inode, offset) is None ==> exists|sz: Option<u64>| {
            &&& #[trigger] size.ensures((inode,), sz)
            &&& spec_shared_page_len(offset, sz) matches Err(e) ==> r == Err::<u32, SharedMapError>(e)
                && final(cache).pages@ == old(cache).pages@ && final(paging).next_free_page == old(paging).next_free_page
            &&& spec_shared_page_len(offset, sz) matches Ok(len) ==> {
                &&& r == Ok::<u32, SharedMapError>(old(paging).next_free_page)
                &&& fill.ensures((old(paging).next_free_page, inode, offset), ())
                &&& final(paging).next_free_page == old(paging).next_free_page + 1
                &&& final(cache).pages@ == old(cache).pages@.push(
                    SharedPage { inode, offset, frame: old(paging).next_free_page, refs: 1, write_len: len })
            }
        },
{
    if offset % (PAGE_SIZE as u64) != 0 {
        return Err(SharedMapError::Unaligned);
    }
    match cache.acquire_cached(inode, offset) {
        Some(frame) => return Ok(frame),
        None => {},
    }
    let sz = size(inode);
    let len = match shared_page_len(offset, sz) {
        Ok(l) => l,
        Err(e) => return Err(e),
    };
    let frame = paging.alloc_frame();
    fill(frame, inode, offset);
    let (used, _joined) = cache.insert_or_join(inode, offset, frame, len);
    Ok(used)
}

} // verus!
