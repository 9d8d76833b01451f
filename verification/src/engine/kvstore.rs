//! The log-structured engine: the index, the bookkeeping of the segment that
//! is being written, the trigger of compaction and the cache of segment
//! handles.
//!
//! The engine reads and writes no file. A caller appends a record to the
//! write segment and then tells the engine how long it was; it asks the
//! engine where a value lies and reads it from there.

use vstd::prelude::*;
use vstd::string::*;
use crate::common::{Command, CommandModel};
use crate::engine::log_model::{
    add_segment, append_record, compacted_segment, lemma_compaction_keeps_contents, lemma_reopen,
    lemma_remove_then_get, lemma_set_then_get, log_contents,
};
use crate::engine::file_pool::{effective_limit, handles_with_room, with_room, FilePool};
use crate::engine::index::{
    lemma_total_len_grows, lemma_total_len_step, packed_pos, total_len, CommandPos, Index,
};
use crate::engine::replay::{
    load_failure, load_hashmap_from_log_files, max_index, records_end, replay_segments,
    segments_ok, segments_view, SegmentModel, SegmentScan,
};
use crate::engine::segment::{
    log_files_below, log_suffix, named_file_name, names_below, segment_file_name, segment_index,
    segment_name, strings_view,
};
use crate::error::{KvStoreError, Result};

verus! {

/// The number of stale writes at which the log is compacted.
pub const REWRITE_COUNT_THRESH: u64 = 10000;

/// Where the current write segment stands.
struct LogWriteHandle {
    /// The index of the segment.
    index: u64,
    /// The offset at which the next record will begin.
    next_pos: u64,
}

impl LogWriteHandle {
    /// Notes that a record of `len` bytes was appended and returns where it
    /// lies. Fails, changing nothing, if the offset would pass the largest
    /// 64-bit number.
    fn append_to_log(&mut self, len: u64) -> (r: Result<CommandPos>)
        ensures
            r is Ok <==> old(self).next_pos + len <= u64::MAX,
            r matches Ok(pos) ==> {
                &&& pos == CommandPos {
                    index: old(self).index,
                    start_pos: old(self).next_pos,
                    len,
                }
                &&& final(self).index == old(self).index
                &&& final(self).next_pos == old(self).next_pos + len
            },
            r matches Err(e) ==> e is OtherError && *final(self) == *old(self),
    {
        match self.next_pos.checked_add(len) {
            Some(next_pos) => {
                let pos = CommandPos { index: self.index, start_pos: self.next_pos, len };
                self.next_pos = next_pos;
                Ok(pos)
            },
            None => Err(
                KvStoreError::OtherError(String::from_str("The write offset is out of range")),
            ),
        }
    }
}

/// From where the caller reads a record.
#[derive(Debug, Clone, Copy, PartialEq, Eq, Structural)]
pub enum ReadSource {
    /// From the segment that is being written, through the handle it is
    /// written with.
    WriteSegment,
    /// From the handle that the cache holds for the segment.
    Cached,
    /// From the segment's file, which the caller opens now. The cache has
    /// room for the new handle.
    Opened,
}

/// Where a record lies and from where it is read.
#[derive(Debug, Clone, Copy, PartialEq, Eq, Structural)]
pub struct ReadPlan {
    pub pos: CommandPos,
    pub source: ReadSource,
}

/// The stale-write count after one more stale write.
pub open spec fn bumped(count: u64) -> u64 {
    if count < u64::MAX {
        (count + 1) as u64
    } else {
        count
    }
}

/// The engine.
pub struct KvStoreCore<H> {
    /// The in-memory index from key to record position.
    kv_map: Index,
    /// The cache of read handles, which never holds the write segment.
    file_pool: FilePool<H>,
    /// Where the write segment stands.
    log_write_handle: LogWriteHandle,
    /// The number of overwrites and removals since the last compaction.
    repeated_write_count: u64,
}

impl<H> KvStoreCore<H> {
    /// The index: for each live key, where its record lies.
    pub closed spec fn positions(&self) -> Map<Seq<char>, CommandPos> {
        self.kv_map@
    }

    /// The live keys in the order in which compaction walks them.
    pub closed spec fn walk_keys(&self) -> Seq<Seq<char>> {
        self.kv_map.keys()
    }

    /// The recorded positions in the order in which compaction walks them.
    pub closed spec fn walk_positions(&self) -> Seq<CommandPos> {
        self.kv_map.positions()
    }

    /// The index of the write segment.
    pub closed spec fn write_segment(&self) -> u64 {
        self.log_write_handle.index
    }

    /// The offset at which the next record will begin.
    pub closed spec fn write_offset(&self) -> u64 {
        self.log_write_handle.next_pos
    }

    /// The number of stale writes since the last compaction.
    pub closed spec fn stale_writes(&self) -> u64 {
        self.repeated_write_count
    }

    /// The cache of read handles.
    pub closed spec fn pool(&self) -> FilePool<H> {
        self.file_pool
    }

    /// The index and the cache are well formed; the cache does not hold the
    /// write segment; no position lies in a segment after the write segment
    /// or, in the write segment, beyond what was written.
    pub closed spec fn wf(&self) -> bool {
        &&& self.kv_map.wf()
        &&& self.file_pool.wf()
        &&& !self.file_pool.handles().contains_key(self.log_write_handle.index)
        &&& forall|k: Seq<char>| #[trigger]
            self.kv_map@.contains_key(k) ==> self.position_written(self.kv_map@[k])
    }

    /// Whether `pos` lies in what was written so far.
    pub open spec fn position_written(&self, pos: CommandPos) -> bool {
        &&& pos.index <= self.write_segment()
        &&& pos.index == self.write_segment() ==> pos.start_pos + pos.len <= self.write_offset()
    }

    /// What well-formedness says of the positions, the walk and the cache.
    pub proof fn lemma_wf(&self)
        requires
            self.wf(),
        ensures
            self.pool().wf(),
            !self.pool().handles().contains_key(self.write_segment()),
            forall|k: Seq<char>| #[trigger]
                self.positions().contains_key(k) ==> self.position_written(self.positions()[k]),
            self.walk_keys().len() == self.walk_positions().len(),
            self.walk_keys().no_duplicates(),
            forall|i: int|
                0 <= i < self.walk_keys().len() ==> {
                    &&& self.positions().contains_key(#[trigger] self.walk_keys()[i])
                    &&& self.positions()[self.walk_keys()[i]] == self.walk_positions()[i]
                },
            forall|k: Seq<char>| #[trigger]
                self.positions().contains_key(k) ==> self.walk_keys().contains(k),
    {
        self.kv_map.lemma_walk();
    }

    /// Whether the engine stands on `log`: the log is one that replay
    /// takes, the index is what replay gives for it, and the write segment
    /// is its last segment, written up to the end of its records.
    pub open spec fn stands_on(&self, log: Seq<SegmentModel>) -> bool {
        &&& log.len() > 0
        &&& segments_ok(log)
        &&& self.positions() == replay_segments(log)
        &&& self.write_segment() == log.last().index
        &&& self.write_offset() == records_end(log.last().records)
    }

    /// The same state but for the cache.
    pub open spec fn same_log_state(&self, other: &Self) -> bool {
        &&& self.positions() == other.positions()
        &&& self.walk_keys() == other.walk_keys()
        &&& self.walk_positions() == other.walk_positions()
        &&& self.write_segment() == other.write_segment()
        &&& self.write_offset() == other.write_offset()
        &&& self.stale_writes() == other.stale_writes()
    }

    /// The same cache.
    pub open spec fn same_pool(&self, other: &Self) -> bool {
        &&& self.pool().limit() == other.pool().limit()
        &&& self.pool().queue() == other.pool().queue()
        &&& self.pool().handles() == other.pool().handles()
    }

    /// Whether `source` is where a record at `pos` is read from in the state
    /// `before`, and `self` is the state after the cache made itself ready
    /// for it.
    pub open spec fn planned(&self, before: &Self, pos: CommandPos, source: ReadSource) -> bool {
        if pos.index == before.write_segment() {
            source is WriteSegment && self.same_pool(before)
        } else if before.pool().handles().contains_key(pos.index) {
            source is Cached && self.same_pool(before)
        } else {
            &&& source is Opened
            &&& self.pool().limit() == before.pool().limit()
            &&& self.pool().queue() == with_room(before.pool().queue(), before.pool().limit())
            &&& self.pool().handles() == handles_with_room(
                before.pool().handles(),
                before.pool().queue(),
                before.pool().limit(),
            )
        }
    }

    /// Opens the engine on what was read from the data directory: replays
    /// the segments and makes the segment after the highest one the write
    /// segment, which the caller creates empty. The cache holds at most
    /// `max_open_files` handles (`MAX_OPEN_FILES` if that is zero).
    ///
    /// A torn record at the end of the last segment is passed over; once the
    /// engine is open the caller cuts it off, where `torn_tail` says. Nothing
    /// else that cannot be read is passed over.
    ///
    /// Fails where `load_hashmap_from_log_files` fails, with its error, and
    /// if there is no index left for the write segment.
    pub fn open(segments: Vec<SegmentScan>, max_open_files: u64) -> (r: Result<KvStoreCore<H>>)
        ensures
            r is Ok <==> segments_ok(segments_view(segments@)) && max_index(
                segments_view(segments@),
            ) < u64::MAX,
            r matches Ok(core) ==> {
                &&& core.wf()
                &&& core.positions() == replay_segments(segments_view(segments@))
                &&& core.write_segment() == max_index(segments_view(segments@)) + 1
                &&& core.write_offset() == 0
                &&& core.stale_writes() == 0
                &&& core.pool().limit() == effective_limit(max_open_files)
                &&& core.pool().queue() == Seq::<u64>::empty()
                &&& core.pool().handles() == Map::<u64, H>::empty()
                &&& core.stands_on(add_segment(segments_view(segments@), core.write_segment()))
            },
            r matches Err(e) ==> (if segments_ok(segments_view(segments@)) {
                e is OtherError
            } else {
                load_failure(segments_view(segments@), e)
            }),
    {
        proof {
            let log = segments_view(segments@);
            if segments_ok(log) && max_index(log) < u64::MAX {
                lemma_reopen(log, (max_index(log) + 1) as u64);
            }
        }
        let (kv_map, max) = match load_hashmap_from_log_files(segments) {
            Ok(loaded) => loaded,
            Err(e) => {
                return Err(e);
            },
        };
        if max == u64::MAX {
            return Err(
                KvStoreError::OtherError(String::from_str("The segment index is out of range")),
            );
        }
        let core = KvStoreCore {
            kv_map,
            file_pool: FilePool::new(max_open_files),
            log_write_handle: LogWriteHandle { index: max + 1, next_pos: 0 },
            repeated_write_count: 0,
        };
        Ok(core)
    }

    /// The index of the write segment.
    pub fn index(&self) -> (r: u64)
        ensures
            r == self.write_segment(),
    {
        self.log_write_handle.index
    }

    /// The offset at which the next record will begin.
    pub fn next_pos(&self) -> (r: u64)
        ensures
            r == self.write_offset(),
    {
        self.log_write_handle.next_pos
    }

    /// The number of live keys.
    pub fn len(&self) -> (n: usize)
        requires
            self.wf(),
        ensures
            n == self.walk_keys().len(),
            n == self.walk_positions().len(),
            n == self.positions().dom().len(),
    {
        self.kv_map.len()
    }

    /// Whether `key` is live.
    pub fn contains_key(&self, key: &str) -> (b: bool)
        requires
            self.wf(),
        ensures
            b == self.positions().contains_key(key@),
    {
        self.kv_map.contains_key(key)
    }

    /// The key of the `i`-th entry that compaction walks.
    pub fn key_at(&self, i: usize) -> (k: &String)
        requires
            self.wf(),
            i < self.walk_keys().len(),
        ensures
            k@ == self.walk_keys()[i as int],
    {
        self.kv_map.key_at(i)
    }

    /// The position of the `i`-th entry that compaction walks.
    pub fn pos_at(&self, i: usize) -> (p: CommandPos)
        requires
            self.wf(),
            i < self.walk_positions().len(),
        ensures
            p == self.walk_positions()[i as int],
    {
        self.kv_map.pos_at(i)
    }

    /// Says from where the record at `pos` is read, and makes the cache
    /// ready: a segment that is neither the write segment nor cached is
    /// about to be opened, so the oldest handle leaves if the cache is full.
    pub fn plan_read(&mut self, pos: CommandPos) -> (source: ReadSource)
        requires
            old(self).wf(),
        ensures
            final(self).wf(),
            final(self).same_log_state(old(self)),
            final(self).planned(old(self), pos, source),
    {
        if pos.index == self.log_write_handle.index {
            ReadSource::WriteSegment
        } else if self.file_pool.open(pos.index) {
            ReadSource::Cached
        } else {
            proof {
                let w = self.write_segment();
                if self.pool().handles().contains_key(w) {
                    assert(old(self).pool().handles().contains_key(w));
                }
            }
            ReadSource::Opened
        }
    }

    /// Looks `key` up. Returns nothing if it is not live; else where its
    /// record lies and from where it is read, with the cache made ready as
    /// `plan_read` does. The caller reads the record there and hands the
    /// command to `read_value`.
    pub fn get(&mut self, key: &str) -> (r: Option<ReadPlan>)
        requires
            old(self).wf(),
        ensures
            final(self).wf(),
            final(self).same_log_state(old(self)),
            r is Some <==> old(self).positions().contains_key(key@),
            r is None ==> final(self).same_pool(old(self)),
            r matches Some(plan) ==> plan.pos == old(self).positions()[key@],
            r matches Some(plan) ==> final(self).planned(old(self), plan.pos, plan.source),
    {
        match self.kv_map.get(key) {
            Some(pos) => {
                let source = self.plan_read(pos);
                Some(ReadPlan { pos, source })
            },
            None => None,
        }
    }

    /// The handle that the cache holds for a segment, if it holds one.
    pub fn handle(&self, index: u64) -> (r: Option<&H>)
        requires
            self.wf(),
        ensures
            r == (if self.pool().handles().contains_key(index) {
                Some(&self.pool().handles()[index])
            } else {
                None
            }),
    {
        self.file_pool.get(index)
    }

    /// Hands the cache the handle of a segment that the caller has opened.
    /// A handle of the write segment is not cached but handed back.
    pub fn cache_handle(&mut self, index: u64, handle: H) -> (back: Option<H>)
        requires
            old(self).wf(),
        ensures
            final(self).wf(),
            final(self).same_log_state(old(self)),
            final(self).pool().limit() == old(self).pool().limit(),
            index == old(self).write_segment() ==> back == Some(handle) && final(self).same_pool(
                old(self),
            ),
            index != old(self).write_segment() ==> back is None,
            index != old(self).write_segment() && old(self).pool().handles().contains_key(index)
                ==> final(self).pool().queue() == old(self).pool().queue(),
            index != old(self).write_segment() && old(self).pool().handles().contains_key(index)
                ==> final(self).pool().handles() == old(self).pool().handles().insert(
                index,
                handle,
            ),
            index != old(self).write_segment() && !old(self).pool().handles().contains_key(index)
                ==> final(self).pool().queue() == with_room(
                old(self).pool().queue(),
                old(self).pool().limit(),
            ).push(index) && final(self).pool().handles() == handles_with_room(
                old(self).pool().handles(),
                old(self).pool().queue(),
                old(self).pool().limit(),
            ).insert(index, handle),
    {
        if index == self.log_write_handle.index {
            Some(handle)
        } else {
            self.file_pool.insert(index, handle);
            None
        }
    }

    /// The number of handles that the cache holds: never more than its
    /// limit.
    pub fn open_handles(&self) -> (n: usize)
        requires
            self.wf(),
        ensures
            n == self.pool().handles().dom().len(),
            n <= self.pool().limit(),
    {
        self.file_pool.len()
    }

    /// The value that `get` returns, from what was read at the position that
    /// the index has for the key. The index points at `SetValue` records
    /// only: anything else there, or nothing, is a fault of the store.
    pub fn read_value(found: Option<Command>) -> (r: Result<Option<String>>)
        ensures
            match found {
                Some(Command::SetValue(_, v)) => r == Ok::<Option<String>, KvStoreError>(Some(v)),
                _ => r matches Err(e) && e is OtherError,
            },
    {
        match found {
            Some(Command::SetValue(_, v)) => Ok(Some(v)),
            Some(_) => Err(
                KvStoreError::OtherError(String::from_str("The got command is not the Set")),
            ),
            None => Err(
                KvStoreError::OtherError(String::from_str("Got None from storage by cmd_pos")),
            ),
        }
    }

    /// Counts one stale write and says whether the log is to be compacted
    /// now.
    fn check_compact_log(&mut self) -> (due: bool)
        requires
            old(self).wf(),
        ensures
            final(self).wf(),
            final(self).positions() == old(self).positions(),
            final(self).walk_keys() == old(self).walk_keys(),
            final(self).walk_positions() == old(self).walk_positions(),
            final(self).write_segment() == old(self).write_segment(),
            final(self).write_offset() == old(self).write_offset(),
            final(self).same_pool(old(self)),
            final(self).stale_writes() == bumped(old(self).stale_writes()),
            due == (final(self).stale_writes() >= REWRITE_COUNT_THRESH),
    {
        if self.repeated_write_count < u64::MAX {
            self.repeated_write_count = self.repeated_write_count + 1;
        }
        self.repeated_write_count >= REWRITE_COUNT_THRESH
    }

    /// Notes that a `SetValue` record for `key`, `len` bytes long, was
    /// appended to the write segment: the key now points to it. An
    /// overwrite counts as a stale write. Returns whether the log is to be
    /// compacted now.
    ///
    /// Fails, changing nothing, if the write offset would pass the largest
    /// 64-bit number.
    pub fn set(&mut self, key: String, len: u64) -> (r: Result<bool>)
        requires
            old(self).wf(),
        ensures
            final(self).wf(),
            final(self).same_pool(old(self)),
            final(self).write_segment() == old(self).write_segment(),
            r is Ok <==> old(self).write_offset() + len <= u64::MAX,
            r matches Ok(due) ==> {
                &&& final(self).positions() == old(self).positions().insert(
                    key@,
                    CommandPos {
                        index: old(self).write_segment(),
                        start_pos: old(self).write_offset(),
                        len,
                    },
                )
                &&& final(self).write_offset() == old(self).write_offset() + len
                &&& final(self).stale_writes() == (if old(self).positions().contains_key(key@) {
                    bumped(old(self).stale_writes())
                } else {
                    old(self).stale_writes()
                })
                &&& due == (old(self).positions().contains_key(key@) && final(self).stale_writes()
                    >= REWRITE_COUNT_THRESH)
                &&& forall|log: Seq<SegmentModel>, value: Seq<char>|
                    old(self).stands_on(log) ==> #[trigger] final(self).stands_on(
                        append_record(log, CommandModel::SetValue(key@, value), len),
                    )
            },
            r matches Err(e) ==> e is OtherError && final(self).same_log_state(old(self)),
    {
        let ghost k = key@;
        let pos = match self.log_write_handle.append_to_log(len) {
            Ok(pos) => pos,
            Err(e) => {
                return Err(e);
            },
        };
        let prev = self.kv_map.insert(key, pos);
        assert(self.wf()) by {
            assert forall|k: Seq<char>| #[trigger]
                self.kv_map@.contains_key(k) implies self.position_written(self.kv_map@[k]) by {
                if k != key@ {
                    assert(old(self).kv_map@.contains_key(k));
                    assert(old(self).position_written(old(self).kv_map@[k]));
                }
            }
        }
        let due = match prev {
            Some(_) => self.check_compact_log(),
            None => false,
        };
        proof {
            assert forall|log: Seq<SegmentModel>, value: Seq<char>|
                old(self).stands_on(log) implies #[trigger] self.stands_on(
                append_record(log, CommandModel::SetValue(k, value), len),
            ) by {
                lemma_set_then_get(log, k, value, len);
                let after = append_record(log, CommandModel::SetValue(k, value), len);
                assert(after.last().index == log.last().index);
                assert(records_end(after.last().records) == old(self).write_offset() + len);
            }
        }
        Ok(due)
    }

    /// Whether `key` can be removed: it can if it is live, and `KeyNotFound`
    /// is the error if it is not. The caller asks this before it appends the
    /// `Remove` record.
    pub fn check_remove(&self, key: &str) -> (r: Result<()>)
        requires
            self.wf(),
        ensures
            r is Ok <==> self.positions().contains_key(key@),
            r matches Err(e) ==> e is KeyNotFound,
    {
        if self.kv_map.contains_key(key) {
            Ok(())
        } else {
            Err(KvStoreError::KeyNotFound)
        }
    }

    /// Notes that a `Remove` record for `key`, `len` bytes long, was
    /// appended to the write segment: the key is live no more. This counts
    /// as a stale write. Returns whether the log is to be compacted now.
    ///
    /// Fails, changing nothing, with `KeyNotFound` if the key is not live,
    /// and if the write offset would pass the largest 64-bit number.
    pub fn remove(&mut self, key: &str, len: u64) -> (r: Result<bool>)
        requires
            old(self).wf(),
        ensures
            final(self).wf(),
            final(self).same_pool(old(self)),
            final(self).write_segment() == old(self).write_segment(),
            r is Ok <==> old(self).positions().contains_key(key@) && old(self).write_offset() + len
                <= u64::MAX,
            r matches Ok(due) ==> {
                &&& final(self).positions() == old(self).positions().remove(key@)
                &&& final(self).write_offset() == old(self).write_offset() + len
                &&& final(self).stale_writes() == bumped(old(self).stale_writes())
                &&& due == (final(self).stale_writes() >= REWRITE_COUNT_THRESH)
                &&& forall|log: Seq<SegmentModel>|
                    old(self).stands_on(log) ==> #[trigger] final(self).stands_on(
                        append_record(log, CommandModel::Remove(key@), len),
                    )
            },
            r matches Err(e) ==> {
                &&& final(self).same_log_state(old(self))
                &&& if old(self).positions().contains_key(key@) {
                    e is OtherError
                } else {
                    e is KeyNotFound
                }
            },
    {
        if !self.kv_map.contains_key(key) {
            return Err(KvStoreError::KeyNotFound);
        }
        match self.log_write_handle.append_to_log(len) {
            Ok(_) => {},
            Err(e) => {
                return Err(e);
            },
        }
        self.kv_map.remove(key);
        assert(self.wf()) by {
            assert forall|k: Seq<char>| #[trigger]
                self.kv_map@.contains_key(k) implies self.position_written(self.kv_map@[k]) by {
                assert(old(self).kv_map@.contains_key(k));
                assert(old(self).position_written(old(self).kv_map@[k]));
            }
        }
        let due = self.check_compact_log();
        proof {
            assert forall|log: Seq<SegmentModel>|
                old(self).stands_on(log) implies #[trigger] self.stands_on(
                append_record(log, CommandModel::Remove(key@), len),
            ) by {
                lemma_remove_then_get(log, key@, len);
                let after = append_record(log, CommandModel::Remove(key@), len);
                assert(after.last().index == log.last().index);
                assert(records_end(after.last().records) == old(self).write_offset() + len);
            }
        }
        Ok(due)
    }

    /// The index of the segment that compaction writes: the one after the
    /// write segment, if there is one.
    pub fn compaction_index(&self) -> (r: Option<u64>)
        ensures
            r == (if self.write_segment() < u64::MAX {
                Some((self.write_segment() + 1) as u64)
            } else {
                None
            }),
    {
        self.log_write_handle.index.checked_add(1)
    }

    /// Whether compaction can move the engine to a segment that holds the
    /// live records back to back with the lengths `lens`.
    pub open spec fn can_compact(&self, lens: Seq<u64>) -> bool {
        &&& lens.len() == self.walk_keys().len()
        &&& total_len(lens) <= u64::MAX
        &&& self.write_segment() < u64::MAX
    }

    /// An engine that compaction has moved to the compacted segment stands
    /// on that segment alone, which stands for what the log stood for.
    proof fn lemma_compacted_stands(
        before: &Self,
        after: &Self,
        lens: Seq<u64>,
        log: Seq<SegmentModel>,
    )
        requires
            before.wf(),
            after.wf(),
            before.stands_on(log),
            before.can_compact(lens),
            after.walk_keys() == before.walk_keys(),
            after.positions().dom() == before.positions().dom(),
            after.walk_positions().len() == lens.len(),
            forall|i: int|
                0 <= i < lens.len() ==> #[trigger] after.walk_positions()[i] == packed_pos(
                    after.write_segment(),
                    lens,
                    i,
                ),
            after.write_offset() == total_len(lens),
        ensures
            log_contents(
                seq![
                    compacted_segment(
                        after.write_segment(),
                        before.walk_keys(),
                        log_contents(log),
                        lens,
                    ),
                ],
            ) == log_contents(log),
            after.stands_on(
                seq![
                    compacted_segment(
                        after.write_segment(),
                        before.walk_keys(),
                        log_contents(log),
                        lens,
                    ),
                ],
            ),
    {
        before.lemma_wf();
        after.lemma_wf();
        let keys = before.walk_keys();
        let index = after.write_segment();
        let segment = compacted_segment(index, keys, log_contents(log), lens);
        let now = seq![segment];
        lemma_compaction_keeps_contents(log, index, keys, lens);
        assert(now.last() == segment);
        let replayed = replay_segments(now);
        assert(after.positions() =~= replayed) by {
            assert forall|k: Seq<char>|
                after.positions().contains_key(k) implies after.positions()[k]
                == replayed[k] by {
                let i = choose|i: int| 0 <= i < keys.len() && keys[i] == k;
                assert(after.positions()[after.walk_keys()[i]] == after.walk_positions()[i]);
                assert(replayed[keys[i]] == packed_pos(index, lens, i));
            }
        }
        assert(records_end(segment.records) == total_len(lens)) by {
            if keys.len() > 0 {
                assert(lens.take(keys.len() as int) =~= lens);
            }
        }
    }

    /// Moves the engine to the compacted segment. The caller has copied the
    /// record of every live key, in the order of the walk, into the segment
    /// `compaction_index()`, the `i`-th with length `lens[i]`, and has given
    /// the file its name. Every key now points to its copy, the compacted
    /// segment is the write segment, the cache is empty and the count of
    /// stale writes is zero.
    ///
    /// Fails, changing nothing, if `lens` does not hold one length for each
    /// live key, or if an offset or the segment index would pass the largest
    /// 64-bit number.
    pub fn compact_log_sync(&mut self, lens: &Vec<u64>) -> (r: Result<()>)
        requires
            old(self).wf(),
        ensures
            final(self).wf(),
            r is Ok <==> old(self).can_compact(lens@),
            r is Ok ==> {
                &&& final(self).walk_keys() == old(self).walk_keys()
                &&& final(self).positions().dom() == old(self).positions().dom()
                &&& final(self).walk_positions().len() == lens@.len()
                &&& forall|i: int|
                    0 <= i < lens@.len() ==> #[trigger] final(self).walk_positions()[i]
                        == packed_pos((old(self).write_segment() + 1) as u64, lens@, i)
                &&& final(self).write_segment() == old(self).write_segment() + 1
                &&& final(self).write_offset() == total_len(lens@)
                &&& final(self).stale_writes() == 0
                &&& final(self).pool().limit() == old(self).pool().limit()
                &&& final(self).pool().queue() == Seq::<u64>::empty()
                &&& final(self).pool().handles() == Map::<u64, H>::empty()
                &&& forall|log: Seq<SegmentModel>|
                    old(self).stands_on(log) ==> #[trigger] log_contents(
                        seq![
                            compacted_segment(
                                final(self).write_segment(),
                                old(self).walk_keys(),
                                log_contents(log),
                                lens@,
                            ),
                        ],
                    ) == log_contents(log) && final(self).stands_on(
                        seq![
                            compacted_segment(
                                final(self).write_segment(),
                                old(self).walk_keys(),
                                log_contents(log),
                                lens@,
                            ),
                        ],
                    )
            },
            r matches Err(e) ==> e is OtherError,
            r is Err ==> final(self).same_log_state(old(self)) && final(self).same_pool(old(self)),
    {
        if lens.len() != self.kv_map.len() {
            return Err(
                KvStoreError::OtherError(
                    String::from_str("Compaction did not copy every live record"),
                ),
            );
        }
        let new_index = match self.log_write_handle.index.checked_add(1) {
            Some(index) => index,
            None => {
                return Err(
                    KvStoreError::OtherError(String::from_str("The segment index is out of range")),
                );
            },
        };
        let total = match sum_lens(lens) {
            Some(total) => total,
            None => {
                return Err(
                    KvStoreError::OtherError(String::from_str("The write offset is out of range")),
                );
            },
        };
        self.kv_map.relocate(new_index, lens);
        self.log_write_handle = LogWriteHandle { index: new_index, next_pos: total };
        self.file_pool.clear();
        self.repeated_write_count = 0;
        assert(self.wf()) by {
            self.kv_map.lemma_walk();
            assert forall|k: Seq<char>| #[trigger]
                self.kv_map@.contains_key(k) implies self.position_written(self.kv_map@[k]) by {
                let i = choose|i: int|
                    0 <= i < self.kv_map.keys().len() && self.kv_map.keys()[i] == k;
                assert(self.kv_map@[self.kv_map.keys()[i]] == self.kv_map.positions()[i]);
                assert(self.kv_map.positions()[i] == packed_pos(new_index, lens@, i));
                lemma_total_len_step(lens@, i);
                lemma_total_len_grows(lens@, i + 1);
            }
        }
        proof {
            let keys = old(self).walk_keys();
            assert forall|log: Seq<SegmentModel>|
                old(self).stands_on(log) implies #[trigger] log_contents(
                seq![compacted_segment(new_index, keys, log_contents(log), lens@)],
            ) == log_contents(log) && self.stands_on(
                seq![compacted_segment(new_index, keys, log_contents(log), lens@)],
            ) by {
                Self::lemma_compacted_stands(old(self), self, lens@, log);
            }
        }
        Ok(())
    }

    /// The names among those of a directory listing that belong to segments
    /// before the write segment. After compaction these are the files that
    /// hold nothing live; the caller deletes them.
    pub fn drop_old_log_files(&self, names: &Vec<String>) -> (r: Vec<String>)
        ensures
            strings_view(r@) == names_below(names@, self.write_segment()),
    {
        log_files_below(names, self.log_write_handle.index)
    }

    /// The name of the file of the segment with the given index.
    pub fn get_path_buf_by_index(&self, index: u64) -> (r: String)
        ensures
            r@ == segment_name(index),
            segment_index(r@) == Some(index),
    {
        segment_file_name(index)
    }

    /// The name of the file that goes by `name`: `name` and `.log`.
    pub fn get_path_buf_by_name(&self, name: &str) -> (r: String)
        ensures
            r@ == name@ + log_suffix(),
    {
        named_file_name(name)
    }
}

/// The sum of the lengths in `lens`, if it fits in 64 bits.
pub fn sum_lens(lens: &Vec<u64>) -> (r: Option<u64>)
    ensures
        r == (if total_len(lens@) <= u64::MAX {
            Some(total_len(lens@) as u64)
        } else {
            None
        }),
{
    let mut total: u64 = 0;
    let mut i: usize = 0;
    assert(lens@.take(0) =~= Seq::<u64>::empty());
    while i < lens.len()
        invariant
            0 <= i <= lens@.len(),
            total == total_len(lens@.take(i as int)),
        decreases lens@.len() - i,
    {
        proof {
            lemma_total_len_step(lens@, i as int);
            lemma_total_len_grows(lens@, i + 1);
        }
        match total.checked_add(lens[i]) {
            Some(next) => {
                total = next;
            },
            None => {
                return None;
            },
        }
        i += 1;
    }
    assert(lens@.take(i as int) =~= lens@);
    Some(total)
}

} // verus!
