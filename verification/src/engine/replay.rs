//! Replay: rebuilding the index from the records of the segments.

use vstd::prelude::*;
use vstd::string::*;
use crate::common::{Command, CommandModel};
use crate::engine::index::{CommandPos, Index};
use crate::error::{KvStoreError, Result};

verus! {

/// One record as it is met when a segment is read front to back: the command
/// and the offset at which the record ends, which is where the next begins.
#[derive(Debug)]
pub struct LogRecord {
    /// The command that the record holds.
    pub cmd: Command,
    /// The offset of the first byte after the record.
    pub next_pos: u64,
}

/// What a `LogRecord` says.
pub struct RecordModel {
    pub cmd: CommandModel,
    pub next_pos: u64,
}

impl View for LogRecord {
    type V = RecordModel;

    open spec fn view(&self) -> RecordModel {
        RecordModel { cmd: self.cmd@, next_pos: self.next_pos }
    }
}

/// What a list of records says.
pub open spec fn records_view(records: Seq<LogRecord>) -> Seq<RecordModel> {
    records.map_values(|r: LogRecord| r@)
}

/// The index after one record was applied to it: a `SetValue` points the key
/// to the record, a `Remove` drops the key whether it was there or not.
pub open spec fn apply_record(
    map: Map<Seq<char>, CommandPos>,
    cmd: CommandModel,
    pos: CommandPos,
) -> Map<Seq<char>, CommandPos> {
    match cmd {
        CommandModel::SetValue(k, _) => map.insert(k, pos),
        CommandModel::Remove(k) => map.remove(k),
        CommandModel::Get(_) => map,
    }
}

/// The offset at which the `i`-th record of a segment begins.
pub open spec fn record_start(records: Seq<RecordModel>, i: int) -> u64 {
    if i <= 0 {
        0
    } else {
        records[i - 1].next_pos
    }
}

/// The position of the `i`-th record of segment `segment`.
pub open spec fn record_pos(segment: u64, records: Seq<RecordModel>, i: int) -> CommandPos {
    CommandPos {
        index: segment,
        start_pos: record_start(records, i),
        len: (records[i].next_pos - record_start(records, i)) as u64,
    }
}

/// Whether replay refuses the `i`-th record: it is a `Get`, which is never
/// written to a log, or it ends before it begins.
pub open spec fn record_refused(records: Seq<RecordModel>, i: int) -> bool {
    records[i].cmd is Get || records[i].next_pos < record_start(records, i)
}

/// Whether replay takes every record.
pub open spec fn records_ok(records: Seq<RecordModel>) -> bool {
    forall|i: int| 0 <= i < records.len() ==> !record_refused(records, i)
}

/// The index after the records of one segment were applied to it in order.
pub open spec fn replay_records(
    map: Map<Seq<char>, CommandPos>,
    segment: u64,
    records: Seq<RecordModel>,
) -> Map<Seq<char>, CommandPos>
    decreases records.len(),
{
    if records.len() == 0 {
        map
    } else {
        apply_record(
            replay_records(map, segment, records.drop_last()),
            records.last().cmd,
            record_pos(segment, records, records.len() - 1),
        )
    }
}

/// Replaying one record more applies it to what the records before it gave.
pub proof fn lemma_replay_step(
    map: Map<Seq<char>, CommandPos>,
    segment: u64,
    records: Seq<RecordModel>,
    i: int,
)
    requires
        0 <= i < records.len(),
    ensures
        replay_records(map, segment, records.take(i + 1)) == apply_record(
            replay_records(map, segment, records.take(i)),
            records[i].cmd,
            record_pos(segment, records, i),
        ),
{
    let s = records.take(i + 1);
    assert(s.drop_last() =~= records.take(i));
    assert(record_pos(segment, s, i) == record_pos(segment, records, i));
}

/// Every position that replay records lies in the segment replayed, unless
/// it was in the index before.
pub proof fn lemma_replay_positions(
    map: Map<Seq<char>, CommandPos>,
    segment: u64,
    records: Seq<RecordModel>,
)
    ensures
        forall|k: Seq<char>| #[trigger]
            replay_records(map, segment, records).contains_key(k) ==> {
                ||| map.contains_key(k) && replay_records(map, segment, records)[k] == map[k]
                ||| replay_records(map, segment, records)[k].index == segment
            },
    decreases records.len(),
{
    if records.len() > 0 {
        lemma_replay_positions(map, segment, records.drop_last());
        let before = replay_records(map, segment, records.drop_last());
        let after = replay_records(map, segment, records);
        assert forall|k: Seq<char>| #[trigger] after.contains_key(k) implies {
            ||| map.contains_key(k) && after[k] == map[k]
            ||| after[k].index == segment
        } by {
            if after[k].index != segment {
                assert(before.contains_key(k));
            }
        }
    }
}

/// Applies the records of segment `index` to `kv_map` in order.
///
/// Fails at the first record that is refused, with the records before it
/// applied.
pub fn read_log_file(kv_map: &mut Index, index: u64, records: &Vec<LogRecord>) -> (r: Result<()>)
    requires
        old(kv_map).wf(),
    ensures
        final(kv_map).wf(),
        r is Ok <==> records_ok(records_view(records@)),
        r is Ok ==> final(kv_map)@ == replay_records(
            old(kv_map)@,
            index,
            records_view(records@),
        ),
        r matches Err(e) ==> e is OtherError && exists|bad: int|
            {
                &&& 0 <= bad < records@.len()
                &&& #[trigger] record_refused(records_view(records@), bad)
                &&& records_ok(records_view(records@).take(bad))
                &&& final(kv_map)@ == replay_records(
                    old(kv_map)@,
                    index,
                    records_view(records@).take(bad),
                )
            },
{
    let ghost all = records_view(records@);
    let mut start_pos: u64 = 0;
    let mut i: usize = 0;
    assert(all.take(0) =~= Seq::<RecordModel>::empty());
    while i < records.len()
        invariant
            0 <= i <= records@.len(),
            all == records_view(records@),
            kv_map.wf(),
            start_pos == record_start(all, i as int),
            records_ok(all.take(i as int)),
            kv_map@ == replay_records(old(kv_map)@, index, all.take(i as int)),
        decreases records@.len() - i,
    {
        let record = &records[i];
        assert(all[i as int] == record@);
        let next_pos = record.next_pos;
        if next_pos < start_pos {
            assert(record_refused(all, i as int));
            return Err(
                KvStoreError::OtherError(String::from_str("A record ends before it begins")),
            );
        }
        let cmd_pos = CommandPos { index, start_pos, len: next_pos - start_pos };
        assert(cmd_pos == record_pos(index, all, i as int));
        proof {
            lemma_replay_step(old(kv_map)@, index, all, i as int);
        }
        match &record.cmd {
            Command::Get(_) => {
                assert(record_refused(all, i as int));
                return Err(
                    KvStoreError::OtherError(
                        String::from_str("The command got from storage is get"),
                    ),
                );
            },
            Command::SetValue(key, _) => {
                kv_map.insert(key.clone(), cmd_pos);
            },
            Command::Remove(key) => {
                kv_map.remove(key.as_str());
            },
        }
        assert(records_ok(all.take(i + 1))) by {
            let now = all.take(i + 1);
            assert forall|j: int| 0 <= j < now.len() implies !#[trigger] record_refused(now, j) by {
                if j < i {
                    assert(!record_refused(all.take(i as int), j));
                }
            }
        }
        start_pos = next_pos;
        i += 1;
    }
    assert(all.take(i as int) =~= all);
    Ok(())
}

/// The failure that ended the reading of a segment file before its end.
pub struct ReadFailure {
    /// The error that the decoder gave.
    pub error: serde_json::Error,
    /// Whether the decoder met the end of the file in the middle of a
    /// record: the bytes after the last record are the beginning of one and
    /// nothing follows them.
    pub at_end: bool,
}

/// What was read from one segment file: its index, its records in order,
/// and the failure that ended the reading if the file holds bytes after them
/// that are no record.
pub struct SegmentScan {
    pub index: u64,
    pub records: Vec<LogRecord>,
    pub failure: Option<ReadFailure>,
}

/// How the reading of a segment file ended.
pub enum SegmentEnd {
    /// The whole file was read as records.
    Whole,
    /// After the records lies the beginning of one more, which the end of
    /// the file cuts short: a write that was under way when the store went
    /// down.
    Torn,
    /// After the records lie bytes that are no record and no beginning of
    /// one: whatever follows them cannot be read.
    Broken,
}

/// What a `SegmentScan` says.
pub struct SegmentModel {
    pub index: u64,
    pub records: Seq<RecordModel>,
    pub end: SegmentEnd,
}

impl View for SegmentScan {
    type V = SegmentModel;

    open spec fn view(&self) -> SegmentModel {
        SegmentModel {
            index: self.index,
            records: records_view(self.records@),
            end: match self.failure {
                None => SegmentEnd::Whole,
                Some(failure) => if failure.at_end {
                    SegmentEnd::Torn
                } else {
                    SegmentEnd::Broken
                },
            },
        }
    }
}

/// What a list of scanned segments says.
pub open spec fn segments_view(segments: Seq<SegmentScan>) -> Seq<SegmentModel> {
    segments.map_values(|s: SegmentScan| s@)
}

/// Whether the `i`-th segment is out of order: its index is not above that
/// of the segment before it.
pub open spec fn segment_misplaced(segments: Seq<SegmentModel>, i: int) -> bool {
    i > 0 && segments[i].index <= segments[i - 1].index
}

/// Whether the `i`-th segment ends in a torn record although it is not the
/// last one. Only the last segment was being written when the store went
/// down, so only there a torn record at the end is passed over.
pub open spec fn segment_torn(segments: Seq<SegmentModel>, i: int) -> bool {
    segments[i].end is Torn && i + 1 < segments.len()
}

/// Whether the `i`-th segment holds bytes that are no record and no torn
/// record at its end. Such a segment is never passed over, be it the last or
/// not: records may lie behind the bytes that cannot be read.
pub open spec fn segment_broken(segments: Seq<SegmentModel>, i: int) -> bool {
    segments[i].end is Broken
}

/// Whether replay refuses the `i`-th segment.
pub open spec fn segment_refused(segments: Seq<SegmentModel>, i: int) -> bool {
    ||| segment_misplaced(segments, i)
    ||| !records_ok(segments[i].records)
    ||| segment_broken(segments, i)
    ||| segment_torn(segments, i)
}

/// Whether replay takes every segment.
pub open spec fn segments_ok(segments: Seq<SegmentModel>) -> bool {
    forall|i: int| 0 <= i < segments.len() ==> !segment_refused(segments, i)
}

/// The index after all segments were replayed in order, starting empty.
pub open spec fn replay_segments(segments: Seq<SegmentModel>) -> Map<Seq<char>, CommandPos>
    decreases segments.len(),
{
    if segments.len() == 0 {
        Map::empty()
    } else {
        replay_records(
            replay_segments(segments.drop_last()),
            segments.last().index,
            segments.last().records,
        )
    }
}

/// The highest segment index met, or zero if there is no segment.
pub open spec fn max_index(segments: Seq<SegmentModel>) -> u64 {
    if segments.len() == 0 {
        0
    } else {
        segments.last().index
    }
}

/// Replaying one segment more replays its records on what the segments
/// before it gave.
pub proof fn lemma_replay_segments_step(segments: Seq<SegmentModel>, i: int)
    requires
        0 <= i < segments.len(),
    ensures
        replay_segments(segments.take(i + 1)) == replay_records(
            replay_segments(segments.take(i)),
            segments[i].index,
            segments[i].records,
        ),
{
    assert(segments.take(i + 1).drop_last() =~= segments.take(i));
}

/// The first segment that replay refuses is the `bad`-th.
pub open spec fn first_refused(segments: Seq<SegmentModel>, bad: int) -> bool {
    &&& 0 <= bad < segments.len()
    &&& segment_refused(segments, bad)
    &&& forall|j: int| 0 <= j < bad ==> !segment_refused(segments, j)
}

/// Whether `e` is the error with which replay fails on these segments: that
/// of the first segment it refuses, which is the failure met when the
/// segment was read if the segment is refused for how its reading ended
/// alone.
pub open spec fn load_failure(segments: Seq<SegmentModel>, e: KvStoreError) -> bool {
    exists|bad: int|
        {
            &&& #[trigger] first_refused(segments, bad)
            &&& if segment_misplaced(segments, bad) || !records_ok(segments[bad].records) {
                e is OtherError
            } else {
                e is JSError
            }
        }
}

/// Rebuilds the index from the segments, which come in ascending order of
/// their indices, and returns it with the highest index met (zero if there
/// is no segment).
///
/// Fails at the first segment that is out of order, holds a record that
/// replay refuses, holds bytes that are no record and no torn record at its
/// end, or ends in a torn record although a segment follows it. In the last
/// two cases the error is the failure met when the segment was read.
pub fn load_hashmap_from_log_files(segments: Vec<SegmentScan>) -> (r: Result<(Index, u64)>)
    ensures
        r is Ok <==> segments_ok(segments_view(segments@)),
        r matches Ok((kv_map, max)) ==> {
            &&& kv_map.wf()
            &&& kv_map@ == replay_segments(segments_view(segments@))
            &&& max == max_index(segments_view(segments@))
            &&& forall|k: Seq<char>| #[trigger]
                kv_map@.contains_key(k) ==> kv_map@[k].index <= max
        },
        r matches Err(e) ==> load_failure(segments_view(segments@), e),
{
    let ghost all = segments_view(segments@);
    let ghost scans = segments@;
    let n = segments.len();
    let mut kv_map = Index::new();
    let mut max: u64 = 0;
    let mut count: usize = 0;
    assert(all.take(0) =~= Seq::<SegmentModel>::empty());
    for segment in it: segments
        invariant
            it.seq() == scans,
            all == segments_view(scans),
            n == scans.len(),
            count == it.index(),
            kv_map.wf(),
            kv_map@ == replay_segments(all.take(count as int)),
            max == max_index(all.take(count as int)),
            forall|j: int| 0 <= j < count ==> !segment_refused(all, j),
            forall|k: Seq<char>| #[trigger] kv_map@.contains_key(k) ==> kv_map@[k].index <= max,
    {
        assert(all[count as int] == segment@);
        assert(count < n);
        if count > 0 && segment.index <= max {
            assert(all.take(count as int).last() == all[count - 1]);
            assert(first_refused(all, count as int));
            return Err(
                KvStoreError::OtherError(
                    String::from_str("The segments are not in ascending order"),
                ),
            );
        }
        proof {
            lemma_replay_segments_step(all, count as int);
            lemma_replay_positions(kv_map@, segment.index, records_view(segment.records@));
            if count > 0 {
                assert(all.take(count as int).last() == all[count - 1]);
            }
        }
        match read_log_file(&mut kv_map, segment.index, &segment.records) {
            Ok(()) => {},
            Err(e) => {
                assert(first_refused(all, count as int));
                return Err(e);
            },
        }
        match segment.failure {
            Some(failure) => {
                if !failure.at_end || count + 1 < n {
                    assert(first_refused(all, count as int));
                    return Err(KvStoreError::JSError(failure.error));
                }
            },
            None => {},
        }
        max = segment.index;
        count += 1;
        assert(all.take(count as int).last() == all[count - 1]);
    }
    assert(all.take(count as int) =~= all);
    Ok((kv_map, max))
}

/// The offset at which the records of a segment end.
pub open spec fn records_end(records: Seq<RecordModel>) -> u64 {
    record_start(records, records.len() as int)
}

/// The last segment and the offset at which its records end, if it ends in
/// a torn record: where the caller cuts the file off once the store is open.
/// A segment that holds bytes which are no torn record at its end is not cut:
/// replay refuses it.
pub fn torn_tail(segments: &Vec<SegmentScan>) -> (r: Option<(u64, u64)>)
    ensures
        r == (if segments@.len() > 0 && segments_view(segments@).last().end is Torn {
            Some(
                (
                    segments_view(segments@).last().index,
                    records_end(segments_view(segments@).last().records),
                ),
            )
        } else {
            None
        }),
{
    let n = segments.len();
    if n == 0 {
        return None;
    }
    let last = &segments[n - 1];
    assert(segments_view(segments@).last() == last@);
    let torn = match &last.failure {
        Some(failure) => failure.at_end,
        None => false,
    };
    if !torn {
        return None;
    }
    let m = last.records.len();
    let keep = if m == 0 {
        0
    } else {
        assert(records_view(last.records@)[m - 1] == last.records@[m - 1]@);
        last.records[m - 1].next_pos
    };
    Some((last.index, keep))
}

} // verus!
