//! What a log means, and why the index is right about it.
//!
//! A log is a list of segments in ascending order of their indices, each a
//! list of records. It stands for a map from keys to values: the one that
//! results when the commands of its records are carried out in order. The
//! engine keeps no values, only the index that replay builds. The theorems
//! here say that the two agree: through the index every live key is found at
//! a `SetValue` record that holds the value the log gives it, and this stays
//! so when records are appended, when the store is opened again and when the
//! log is compacted.

use vstd::prelude::*;
use crate::common::CommandModel;
use crate::engine::index::{
    lemma_total_len_grows, lemma_total_len_step, packed_pos, total_len, CommandPos,
};
use crate::engine::replay::{
    apply_record, record_pos, record_refused, records_end, records_ok, replay_records,
    replay_segments, segment_refused, segments_ok, RecordModel, SegmentEnd, SegmentModel,
};

verus! {

/// The contents after one command was carried out.
pub open spec fn apply_command(
    contents: Map<Seq<char>, Seq<char>>,
    cmd: CommandModel,
) -> Map<Seq<char>, Seq<char>> {
    match cmd {
        CommandModel::SetValue(k, v) => contents.insert(k, v),
        CommandModel::Remove(k) => contents.remove(k),
        CommandModel::Get(_) => contents,
    }
}

/// The contents after the commands of `records` were carried out in order.
pub open spec fn records_contents(
    contents: Map<Seq<char>, Seq<char>>,
    records: Seq<RecordModel>,
) -> Map<Seq<char>, Seq<char>>
    decreases records.len(),
{
    if records.len() == 0 {
        contents
    } else {
        apply_command(records_contents(contents, records.drop_last()), records.last().cmd)
    }
}

/// The map from keys to values that a log stands for.
pub open spec fn log_contents(log: Seq<SegmentModel>) -> Map<Seq<char>, Seq<char>>
    decreases log.len(),
{
    if log.len() == 0 {
        Map::empty()
    } else {
        records_contents(log_contents(log.drop_last()), log.last().records)
    }
}

/// Whether a record with the command `cmd` lies at `pos` in the log.
pub open spec fn holds_at(log: Seq<SegmentModel>, pos: CommandPos, cmd: CommandModel) -> bool {
    exists|s: int, i: int|
        0 <= s < log.len() && 0 <= i < log[s].records.len() && #[trigger] record_pos(
            log[s].index,
            log[s].records,
            i,
        ) == pos && log[s].records[i].cmd == cmd
}

/// Whether `positions` is an index through which the log serves
/// `contents`: it holds the keys of `contents`, and at the position of each
/// lies a `SetValue` record with the key and its value.
pub open spec fn serves(
    positions: Map<Seq<char>, CommandPos>,
    contents: Map<Seq<char>, Seq<char>>,
    log: Seq<SegmentModel>,
) -> bool {
    &&& positions.dom() == contents.dom()
    &&& forall|k: Seq<char>| #[trigger]
        positions.contains_key(k) ==> holds_at(
            log,
            positions[k],
            CommandModel::SetValue(k, contents[k]),
        )
}

/// The log after a record with the command `cmd`, `len` bytes long, was
/// appended to its last segment.
pub open spec fn append_record(log: Seq<SegmentModel>, cmd: CommandModel, len: u64) -> Seq<
    SegmentModel,
> {
    let last = log.last();
    log.drop_last().push(
        SegmentModel {
            index: last.index,
            records: last.records.push(
                RecordModel { cmd, next_pos: (records_end(last.records) + len) as u64 },
            ),
            end: last.end,
        },
    )
}

/// The log after an empty segment with the index `index` was added to it,
/// with the torn record at the end of the segment before it cut off.
pub open spec fn add_segment(log: Seq<SegmentModel>, index: u64) -> Seq<SegmentModel> {
    let mended = if log.len() == 0 {
        log
    } else {
        log.drop_last().push(
            SegmentModel {
                index: log.last().index,
                records: log.last().records,
                end: SegmentEnd::Whole,
            },
        )
    };
    mended.push(SegmentModel { index, records: Seq::empty(), end: SegmentEnd::Whole })
}

/// The segment that compaction writes: for each key of `keys` a `SetValue`
/// record with its value in `contents`, back to back with the lengths
/// `lens`.
pub open spec fn compacted_segment(
    index: u64,
    keys: Seq<Seq<char>>,
    contents: Map<Seq<char>, Seq<char>>,
    lens: Seq<u64>,
) -> SegmentModel {
    SegmentModel {
        index,
        records: Seq::new(
            keys.len(),
            |i: int|
                RecordModel {
                    cmd: CommandModel::SetValue(keys[i], contents[keys[i]]),
                    next_pos: total_len(lens.take(i + 1)) as u64,
                },
        ),
        end: SegmentEnd::Whole,
    }
}

/// Replaying the first `i` records of the `s`-th segment keeps an index
/// that serves.
proof fn lemma_records_serve(
    log: Seq<SegmentModel>,
    s: int,
    i: int,
    positions: Map<Seq<char>, CommandPos>,
    contents: Map<Seq<char>, Seq<char>>,
)
    requires
        0 <= s < log.len(),
        0 <= i <= log[s].records.len(),
        serves(positions, contents, log),
    ensures
        serves(
            replay_records(positions, log[s].index, log[s].records.take(i)),
            records_contents(contents, log[s].records.take(i)),
            log,
        ),
    decreases i,
{
    let records = log[s].records;
    if i > 0 {
        lemma_records_serve(log, s, i - 1, positions, contents);
        let now = records.take(i);
        assert(now.drop_last() =~= records.take(i - 1));
        let before_p = replay_records(positions, log[s].index, records.take(i - 1));
        let before_c = records_contents(contents, records.take(i - 1));
        let pos = record_pos(log[s].index, now, i - 1);
        assert(pos == record_pos(log[s].index, records, i - 1));
        let after_p = replay_records(positions, log[s].index, now);
        let after_c = records_contents(contents, now);
        assert(after_p == apply_record(before_p, records[i - 1].cmd, pos));
        assert(after_c == apply_command(before_c, records[i - 1].cmd));
        assert(after_p.dom() =~= after_c.dom());
        assert forall|k: Seq<char>| #[trigger] after_p.contains_key(k) implies holds_at(
            log,
            after_p[k],
            CommandModel::SetValue(k, after_c[k]),
        ) by {
            match records[i - 1].cmd {
                CommandModel::SetValue(key, value) => {
                    if k == key {
                        assert(record_pos(log[s].index, log[s].records, i - 1) == after_p[k]);
                    } else {
                        assert(before_p.contains_key(k));
                    }
                },
                CommandModel::Remove(key) => {
                    assert(before_p.contains_key(k));
                },
                CommandModel::Get(_) => {
                    assert(before_p.contains_key(k));
                },
            }
        }
    } else {
        assert(records.take(0) =~= Seq::<RecordModel>::empty());
    }
}

/// Replaying the first `n` segments gives an index that serves their
/// contents.
proof fn lemma_segments_serve(log: Seq<SegmentModel>, n: int)
    requires
        0 <= n <= log.len(),
    ensures
        serves(replay_segments(log.take(n)), log_contents(log.take(n)), log),
    decreases n,
{
    if n > 0 {
        lemma_segments_serve(log, n - 1);
        assert(log.take(n).drop_last() =~= log.take(n - 1));
        assert(log.take(n).last() == log[n - 1]);
        let records = log[n - 1].records;
        lemma_records_serve(
            log,
            n - 1,
            records.len() as int,
            replay_segments(log.take(n - 1)),
            log_contents(log.take(n - 1)),
        );
        assert(records.take(records.len() as int) =~= records);
    } else {
        assert(log.take(0) =~= Seq::<SegmentModel>::empty());
        assert(replay_segments(log.take(0)).dom() =~= log_contents(log.take(0)).dom());
    }
}

/// The index that replay builds from a log holds the keys to which the log
/// gives a value, and at the position of each lies a `SetValue` record with
/// the key and that value. So `get` finds the value that was set last, and
/// none for a key that was removed or never set.
pub proof fn lemma_index_serves_log(log: Seq<SegmentModel>)
    ensures
        serves(replay_segments(log), log_contents(log), log),
{
    lemma_segments_serve(log, log.len() as int);
    assert(log.take(log.len() as int) =~= log);
}

/// In a log that replay takes, the indices of the segments ascend.
pub proof fn lemma_indices_ascend(log: Seq<SegmentModel>, s: int, t: int)
    requires
        segments_ok(log),
        0 <= s < t < log.len(),
    ensures
        log[s].index < log[t].index,
    decreases t - s,
{
    assert(!segment_refused(log, t));
    if s + 1 < t {
        lemma_indices_ascend(log, s, t - 1);
    }
}

/// In a segment that replay takes, no record ends before an earlier one.
pub proof fn lemma_offsets_ascend(records: Seq<RecordModel>, i: int, j: int)
    requires
        records_ok(records),
        0 <= i <= j < records.len(),
    ensures
        records[i].next_pos <= records[j].next_pos,
    decreases j - i,
{
    if i < j {
        assert(!record_refused(records, j));
        lemma_offsets_ascend(records, i, j - 1);
    }
}

/// At a position of positive length lies one record at most: what is read
/// there is what the index stands for.
pub proof fn lemma_one_record_at(
    log: Seq<SegmentModel>,
    pos: CommandPos,
    c1: CommandModel,
    c2: CommandModel,
)
    requires
        segments_ok(log),
        pos.len > 0,
        holds_at(log, pos, c1),
        holds_at(log, pos, c2),
    ensures
        c1 == c2,
{
    let (s1, i1) = choose|s: int, i: int|
        0 <= s < log.len() && 0 <= i < log[s].records.len() && #[trigger] record_pos(
            log[s].index,
            log[s].records,
            i,
        ) == pos && log[s].records[i].cmd == c1;
    let (s2, i2) = choose|s: int, i: int|
        0 <= s < log.len() && 0 <= i < log[s].records.len() && #[trigger] record_pos(
            log[s].index,
            log[s].records,
            i,
        ) == pos && log[s].records[i].cmd == c2;
    if s1 < s2 {
        lemma_indices_ascend(log, s1, s2);
    }
    if s2 < s1 {
        lemma_indices_ascend(log, s2, s1);
    }
    assert(s1 == s2);
    let records = log[s1].records;
    assert(!segment_refused(log, s1));
    assert(!record_refused(records, i1));
    assert(!record_refused(records, i2));
    if i1 < i2 {
        lemma_offsets_ascend(records, i1, i2 - 1);
    }
    if i2 < i1 {
        lemma_offsets_ascend(records, i2, i1 - 1);
    }
}

/// What appending one record does to the index and to the contents.
proof fn lemma_append(log: Seq<SegmentModel>, cmd: CommandModel, len: u64)
    requires
        log.len() > 0,
        records_end(log.last().records) + len <= u64::MAX,
    ensures
        ({
            let after = append_record(log, cmd, len);
            let pos = CommandPos {
                index: log.last().index,
                start_pos: records_end(log.last().records),
                len,
            };
            &&& after.len() == log.len()
            &&& replay_segments(after) == apply_record(replay_segments(log), cmd, pos)
            &&& log_contents(after) == apply_command(log_contents(log), cmd)
            &&& holds_at(after, pos, cmd)
            &&& segments_ok(log) && !(cmd is Get) ==> segments_ok(after)
        }),
{
    let after = append_record(log, cmd, len);
    let records = log.last().records;
    let record = RecordModel { cmd, next_pos: (records_end(records) + len) as u64 };
    let n = records.len() as int;
    let s = log.len() - 1;
    assert(after.drop_last() =~= log.drop_last());
    assert(after.last().records == records.push(record));
    assert(records.push(record).drop_last() =~= records);
    assert(record_pos(log.last().index, records.push(record), n) == CommandPos {
        index: log.last().index,
        start_pos: records_end(records),
        len,
    });
    assert(record_pos(after[s].index, after[s].records, n) == CommandPos {
        index: log.last().index,
        start_pos: records_end(records),
        len,
    });
    if segments_ok(log) && !(cmd is Get) {
        assert forall|t: int| 0 <= t < after.len() implies !segment_refused(after, t) by {
            assert(!segment_refused(log, t));
            if t == s {
                let written = after[s].records;
                assert forall|i: int| 0 <= i < written.len() implies !#[trigger] record_refused(
                    written,
                    i,
                ) by {
                    if i < n {
                        assert(!record_refused(records, i));
                    }
                }
            } else {
                assert(after[t] == log[t]);
            }
        }
    }
}

/// After `set(k, v)`, `get(k)` gives `v`.
///
/// Let the engine stand on a log that replay takes, and let a `SetValue`
/// record for `key` and `value` be appended to the write segment, which is
/// the last. Then replay of the longer log gives the index that `set`
/// leaves; the log gives `key` the value `value` and every other key what it
/// had; and at the position that the index now has for `key` lies the
/// record just written.
pub proof fn lemma_set_then_get(
    log: Seq<SegmentModel>,
    key: Seq<char>,
    value: Seq<char>,
    len: u64,
)
    requires
        log.len() > 0,
        segments_ok(log),
        records_end(log.last().records) + len <= u64::MAX,
    ensures
        ({
            let after = append_record(log, CommandModel::SetValue(key, value), len);
            let pos = CommandPos {
                index: log.last().index,
                start_pos: records_end(log.last().records),
                len,
            };
            &&& segments_ok(after)
            &&& replay_segments(after) == replay_segments(log).insert(key, pos)
            &&& log_contents(after) == log_contents(log).insert(key, value)
            &&& holds_at(after, replay_segments(after)[key], CommandModel::SetValue(key, value))
            &&& serves(replay_segments(after), log_contents(after), after)
        }),
{
    lemma_append(log, CommandModel::SetValue(key, value), len);
    lemma_index_serves_log(append_record(log, CommandModel::SetValue(key, value), len));
}

/// After `remove(k)` of a live key, `get(k)` gives nothing.
///
/// Let the engine stand on a log that replay takes, and let a `Remove`
/// record for `key` be appended to the write segment. Then replay of the
/// longer log gives the index that `remove` leaves, which has no position
/// for `key`; the log gives `key` no value and every other key what it had.
pub proof fn lemma_remove_then_get(log: Seq<SegmentModel>, key: Seq<char>, len: u64)
    requires
        log.len() > 0,
        segments_ok(log),
        records_end(log.last().records) + len <= u64::MAX,
    ensures
        ({
            let after = append_record(log, CommandModel::Remove(key), len);
            &&& segments_ok(after)
            &&& replay_segments(after) == replay_segments(log).remove(key)
            &&& log_contents(after) == log_contents(log).remove(key)
            &&& !replay_segments(after).contains_key(key)
            &&& !log_contents(after).contains_key(key)
            &&& serves(replay_segments(after), log_contents(after), after)
        }),
{
    lemma_append(log, CommandModel::Remove(key), len);
    lemma_index_serves_log(append_record(log, CommandModel::Remove(key), len));
}

/// Opening the store again gives the same index and the same contents.
///
/// Opening replays the log, which depends on nothing but the log, and adds
/// an empty write segment after the last segment, whose torn end, if it has
/// one, is cut off. The longer log is one that replay takes; replay gives the
/// same index for it, and it stands for the same contents.
pub proof fn lemma_reopen(log: Seq<SegmentModel>, index: u64)
    requires
        segments_ok(log),
        log.len() > 0 ==> log.last().index < index,
    ensures
        segments_ok(add_segment(log, index)),
        replay_segments(add_segment(log, index)) == replay_segments(log),
        log_contents(add_segment(log, index)) == log_contents(log),
        serves(replay_segments(log), log_contents(log), add_segment(log, index)),
{
    let after = add_segment(log, index);
    let n = log.len() as int;
    assert(after.drop_last().len() == n);
    if n > 0 {
        let mended = after.drop_last();
        assert(mended.drop_last() =~= log.drop_last());
        assert(mended.last().records == log.last().records);
        assert(mended.last().index == log.last().index);
        assert(replay_segments(mended) == replay_segments(log));
        assert(log_contents(mended) == log_contents(log));
    } else {
        assert(after.drop_last() =~= log);
    }
    assert(after.last().records.len() == 0);
    assert forall|t: int| 0 <= t < after.len() implies !segment_refused(after, t) by {
        if t < n {
            assert(!segment_refused(log, t));
            assert(after[t].index == log[t].index);
            assert(after[t].records == log[t].records);
            if t > 0 {
                assert(after[t - 1].index == log[t - 1].index);
            }
            if t + 1 < n {
                assert(after[t] == log[t]);
            }
        } else {
            if n > 0 {
                assert(after[t - 1].index == log.last().index);
            }
        }
    }
    lemma_index_serves_log(after);
}

/// The index and the contents that the first `n` records of a compacted
/// segment give.
proof fn lemma_compacted_prefix(
    index: u64,
    keys: Seq<Seq<char>>,
    contents: Map<Seq<char>, Seq<char>>,
    lens: Seq<u64>,
    n: int,
)
    requires
        keys.no_duplicates(),
        lens.len() == keys.len(),
        total_len(lens) <= u64::MAX,
        0 <= n <= keys.len(),
    ensures
        ({
            let records = compacted_segment(index, keys, contents, lens).records;
            let positions = replay_records(Map::empty(), index, records.take(n));
            let values = records_contents(Map::empty(), records.take(n));
            &&& forall|k: Seq<char>| positions.contains_key(k) <==> keys.take(n).contains(k)
            &&& forall|k: Seq<char>| values.contains_key(k) <==> keys.take(n).contains(k)
            &&& forall|i: int|
                0 <= i < n ==> positions[#[trigger] keys[i]] == packed_pos(index, lens, i)
                    && values[keys[i]] == contents[keys[i]]
        }),
    decreases n,
{
    let records = compacted_segment(index, keys, contents, lens).records;
    if n > 0 {
        lemma_compacted_prefix(index, keys, contents, lens, n - 1);
        let now = records.take(n);
        assert(now.drop_last() =~= records.take(n - 1));
        let pos = record_pos(index, now, n - 1);
        lemma_total_len_step(lens, n - 1);
        lemma_total_len_grows(lens, n);
        lemma_total_len_grows(lens, n - 1);
        assert(pos == packed_pos(index, lens, n - 1)) by {
            if n - 1 > 0 {
                assert(now[n - 2].next_pos == total_len(lens.take(n - 1)) as u64);
            } else {
                assert(lens.take(0) =~= Seq::<u64>::empty());
            }
        }
        let before_p = replay_records(Map::empty(), index, records.take(n - 1));
        let after_p = replay_records(Map::empty(), index, now);
        let before_v = records_contents(Map::empty(), records.take(n - 1));
        let after_v = records_contents(Map::empty(), now);
        assert(after_p == before_p.insert(keys[n - 1], pos));
        assert(after_v == before_v.insert(keys[n - 1], contents[keys[n - 1]]));
        let keys_before = keys.take(n - 1);
        let keys_now = keys.take(n);
        assert forall|k: Seq<char>| keys_now.contains(k) <==> (keys_before.contains(k) || k
            == keys[n - 1]) by {
            if keys_before.contains(k) {
                let j = choose|j: int| 0 <= j < keys_before.len() && keys_before[j] == k;
                assert(keys_now[j] == k);
            }
            if k == keys[n - 1] {
                assert(keys_now[n - 1] == k);
            }
            if keys_now.contains(k) {
                let j = choose|j: int| 0 <= j < keys_now.len() && keys_now[j] == k;
                if j < n - 1 {
                    assert(keys_before[j] == k);
                }
            }
        }
        assert forall|i: int| 0 <= i < n implies after_p[#[trigger] keys[i]] == packed_pos(
            index,
            lens,
            i,
        ) && after_v[keys[i]] == contents[keys[i]] by {
            if i < n - 1 {
                assert(keys[i] != keys[n - 1]);
            }
        }
    } else {
        assert(records.take(0) =~= Seq::<RecordModel>::empty());
        assert(keys.take(0) =~= Seq::<Seq<char>>::empty());
    }
}

/// Compaction keeps every value and loses no key.
///
/// Let the engine stand on a log, and let compaction write the record of
/// every live key, in the order of the walk `keys`, into one new segment.
/// Then the new segment alone is a log that replay takes; it stands for the
/// same contents as the old log; and replay of it gives the index that
/// `compact_log_sync` leaves: the same keys, each at its copy.
pub proof fn lemma_compaction_keeps_contents(
    log: Seq<SegmentModel>,
    index: u64,
    keys: Seq<Seq<char>>,
    lens: Seq<u64>,
)
    requires
        keys.no_duplicates(),
        forall|k: Seq<char>| keys.contains(k) <==> replay_segments(log).contains_key(k),
        lens.len() == keys.len(),
        total_len(lens) <= u64::MAX,
    ensures
        ({
            let after = seq![compacted_segment(index, keys, log_contents(log), lens)];
            &&& segments_ok(after)
            &&& log_contents(after) == log_contents(log)
            &&& replay_segments(after).dom() == replay_segments(log).dom()
            &&& forall|i: int|
                0 <= i < keys.len() ==> replay_segments(after)[#[trigger] keys[i]] == packed_pos(
                    index,
                    lens,
                    i,
                )
            &&& serves(replay_segments(after), log_contents(log), after)
        }),
{
    let contents = log_contents(log);
    let segment = compacted_segment(index, keys, contents, lens);
    let after = seq![segment];
    let records = segment.records;
    let n = keys.len() as int;
    lemma_index_serves_log(log);
    lemma_compacted_prefix(index, keys, contents, lens, n);
    assert(records.take(n) =~= records);
    assert(keys.take(n) =~= keys);
    assert(after.drop_last() =~= Seq::<SegmentModel>::empty());
    assert(after.last() == segment);
    assert(replay_segments(after.drop_last()) == Map::<Seq<char>, CommandPos>::empty());
    assert(log_contents(after.drop_last()) == Map::<Seq<char>, Seq<char>>::empty());
    assert(replay_segments(after) == replay_records(Map::empty(), index, records));
    assert(log_contents(after) == records_contents(Map::empty(), records));
    assert(replay_segments(after).dom() =~= replay_segments(log).dom());
    assert(log_contents(after) =~= contents) by {
        assert forall|k: Seq<char>| log_contents(after).contains_key(k) implies log_contents(
            after,
        )[k] == contents[k] by {
            let i = choose|i: int| 0 <= i < keys.len() && keys[i] == k;
            assert(log_contents(after)[keys[i]] == contents[keys[i]]);
        }
    }
    assert forall|i: int| 0 <= i < records.len() implies !#[trigger] record_refused(
        records,
        i,
    ) by {
        lemma_total_len_step(lens, i);
        lemma_total_len_grows(lens, i + 1);
        lemma_total_len_grows(lens, i);
        if i == 0 {
            assert(lens.take(0) =~= Seq::<u64>::empty());
        }
    }
    assert(segments_ok(after)) by {
        assert(!segment_refused(after, 0));
    }
    lemma_index_serves_log(after);
}

} // verus!
