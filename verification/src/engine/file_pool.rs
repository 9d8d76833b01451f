//! A bounded cache of open segment handles.
//!
//! The cache holds at most a fixed number of handles. When a new segment
//! has to be opened while the cache is full, the handle that was opened first
//! is dropped: first in, first out, whatever was used last.

use vstd::prelude::*;
use std::collections::BTreeMap;
use std::collections::VecDeque;
use crate::engine::segment::{segment_file_name, segment_index, segment_name};

verus! {

/// The number of handles a cache holds when it is asked for none.
pub const MAX_OPEN_FILES: u64 = 100;

/// The limit that a cache asked for `max_open_files` handles works with.
pub open spec fn effective_limit(max_open_files: u64) -> u64 {
    if max_open_files == 0 {
        MAX_OPEN_FILES
    } else {
        max_open_files
    }
}

/// The queue after room was made for one more handle under `limit`: without
/// its first index if it was full.
pub open spec fn with_room(queue: Seq<u64>, limit: u64) -> Seq<u64> {
    if queue.len() >= limit {
        queue.drop_first()
    } else {
        queue
    }
}

/// The handles after room was made for one more under `limit`: without the
/// one that was opened first if the cache was full.
pub open spec fn handles_with_room<H>(handles: Map<u64, H>, queue: Seq<u64>, limit: u64) -> Map<
    u64,
    H,
> {
    if queue.len() >= limit {
        handles.remove(queue[0])
    } else {
        handles
    }
}

/// The cache of open handles, by segment index. `H` is the handle.
pub struct FilePool<H> {
    /// The most handles the cache may hold.
    max_open_files: u64,
    /// The handle of each cached segment.
    files_map: BTreeMap<u64, H>,
    /// The cached segments in the order in which they were opened.
    index_queue: VecDeque<u64>,
}

impl<H> FilePool<H> {
    /// The cached segment indices, the one opened first in front.
    pub closed spec fn queue(&self) -> Seq<u64> {
        self.index_queue@
    }

    /// The cached handles by segment index.
    pub closed spec fn handles(&self) -> Map<u64, H> {
        self.files_map@
    }

    /// The most handles the cache may hold.
    pub closed spec fn limit(&self) -> u64 {
        self.max_open_files
    }

    /// The limit is positive and kept; the queue names each cached segment
    /// once and no other.
    pub open spec fn wf(&self) -> bool {
        &&& 0 < self.limit()
        &&& self.queue().len() <= self.limit()
        &&& self.queue().no_duplicates()
        &&& forall|i: u64| self.handles().contains_key(i) <==> self.queue().contains(i)
    }

    /// The cache never holds more handles than its limit.
    pub proof fn lemma_bounded(&self)
        requires
            self.wf(),
        ensures
            self.handles().dom().finite(),
            self.handles().dom().len() == self.queue().len(),
            self.handles().dom().len() <= self.limit(),
    {
        self.queue().unique_seq_to_set();
        assert(self.queue().to_set() =~= self.handles().dom());
    }

    /// An empty cache that holds at most `max_open_files` handles, or
    /// `MAX_OPEN_FILES` if that is zero.
    pub fn new(max_open_files: u64) -> (r: Self)
        ensures
            r.wf(),
            r.limit() == effective_limit(max_open_files),
            r.queue() == Seq::<u64>::empty(),
            r.handles() == Map::<u64, H>::empty(),
    {
        let mut max_open_files = max_open_files;
        if max_open_files == 0 {
            max_open_files = MAX_OPEN_FILES;
        }
        FilePool { max_open_files, files_map: BTreeMap::new(), index_queue: VecDeque::new() }
    }

    /// The most handles the cache may hold.
    pub fn max_open_files(&self) -> (n: u64)
        ensures
            n == self.limit(),
    {
        self.max_open_files
    }

    /// The number of handles held.
    pub fn len(&self) -> (n: usize)
        requires
            self.wf(),
        ensures
            n == self.queue().len(),
            n == self.handles().dom().len(),
            n <= self.limit(),
    {
        proof {
            self.lemma_bounded();
        }
        self.index_queue.len()
    }

    /// Whether the segment's handle is cached.
    pub fn contains(&self, index: u64) -> (b: bool)
        requires
            self.wf(),
        ensures
            b == self.handles().contains_key(index),
    {
        self.files_map.contains_key(&index)
    }

    /// The cached handle of the segment, if there is one.
    pub fn get(&self, index: u64) -> (r: Option<&H>)
        requires
            self.wf(),
        ensures
            r == (if self.handles().contains_key(index) {
                Some(&self.handles()[index])
            } else {
                None
            }),
    {
        self.files_map.get(&index)
    }

    /// Drops the handle that was opened first if the cache is full.
    fn make_room(&mut self)
        requires
            old(self).wf(),
        ensures
            final(self).wf(),
            final(self).limit() == old(self).limit(),
            final(self).queue() == with_room(old(self).queue(), old(self).limit()),
            final(self).handles() == handles_with_room(
                old(self).handles(),
                old(self).queue(),
                old(self).limit(),
            ),
            final(self).queue().len() < final(self).limit(),
    {
        if self.index_queue.len() as u64 >= self.max_open_files {
            let first = self.index_queue.pop_front();
            match first {
                Some(pop_index) => {
                    self.files_map.remove(&pop_index);
                    proof {
                        let q = old(self).queue();
                        assert forall|i: u64|
                            self.handles().contains_key(i) <==> self.queue().contains(i) by {
                            if q.drop_first().contains(i) {
                                let j = choose|j: int|
                                    0 <= j < q.drop_first().len() && q.drop_first()[j] == i;
                                assert(q[j + 1] == i);
                            }
                            if q.contains(i) && i != q[0] {
                                let j = choose|j: int| 0 <= j < q.len() && q[j] == i;
                                assert(q.drop_first()[j - 1] == i);
                            }
                        }
                    }
                },
                None => {},
            }
        }
    }

    /// Asks for the handle of a segment. Returns whether it is cached. If it
    /// is not, room has been made for it: the caller opens the segment and
    /// hands the handle to `insert`.
    pub fn open(&mut self, index: u64) -> (cached: bool)
        requires
            old(self).wf(),
        ensures
            final(self).wf(),
            final(self).limit() == old(self).limit(),
            cached == old(self).handles().contains_key(index),
            cached ==> final(self).queue() == old(self).queue(),
            cached ==> final(self).handles() == old(self).handles(),
            !cached ==> final(self).queue() == with_room(old(self).queue(), old(self).limit())
                && final(self).handles() == handles_with_room(
                old(self).handles(),
                old(self).queue(),
                old(self).limit(),
            ),
            !cached ==> final(self).queue().len() < final(self).limit(),
    {
        if self.files_map.contains_key(&index) {
            true
        } else {
            self.make_room();
            false
        }
    }

    /// Caches the handle of a segment. A segment that is cached already
    /// keeps its place in the queue and takes the new handle; a new one goes
    /// to the back, after room was made for it.
    pub fn insert(&mut self, index: u64, handle: H)
        requires
            old(self).wf(),
        ensures
            final(self).wf(),
            final(self).limit() == old(self).limit(),
            old(self).handles().contains_key(index) ==> final(self).queue() == old(self).queue()
                && final(self).handles() == old(self).handles().insert(index, handle),
            !old(self).handles().contains_key(index) ==> final(self).queue() == with_room(
                old(self).queue(),
                old(self).limit(),
            ).push(index) && final(self).handles() == handles_with_room(
                old(self).handles(),
                old(self).queue(),
                old(self).limit(),
            ).insert(index, handle),
    {
        if !self.files_map.contains_key(&index) {
            self.make_room();
            proof {
                let q = self.queue();
                assert(!q.contains(index));
                assert forall|i: u64|
                    self.handles().insert(index, handle).contains_key(i) <==> q.push(
                        index,
                    ).contains(i) by {
                    if q.contains(i) {
                        let j = choose|j: int| 0 <= j < q.len() && q[j] == i;
                        assert(q.push(index)[j] == i);
                    }
                    if i == index {
                        assert(q.push(index)[q.len() as int] == i);
                    }
                }
            }
            self.index_queue.push_back(index);
        }
        self.files_map.insert(index, handle);
    }

    /// Drops every cached handle.
    pub fn clear(&mut self)
        requires
            old(self).wf(),
        ensures
            final(self).wf(),
            final(self).limit() == old(self).limit(),
            final(self).queue() == Seq::<u64>::empty(),
            final(self).handles() == Map::<u64, H>::empty(),
    {
        self.files_map.clear();
        self.index_queue.clear();
    }

    /// The name of the segment's file inside the data directory.
    pub fn get_path_buf(&self, index: u64) -> (r: String)
        ensures
            r@ == segment_name(index),
            segment_index(r@) == Some(index),
    {
        segment_file_name(index)
    }
}

} // verus!
