//! The in-memory index: for every live key, where its latest `SetValue`
//! record lies in the log.

use vstd::prelude::*;
use vstd::hash_map::StringHashMap;

verus! {

/// Where one record lies: the segment, the byte offset at which it starts and
/// its length in bytes.
#[derive(Debug, Clone, Copy, PartialEq, Eq, Structural)]
pub struct CommandPos {
    /// The index of the segment file.
    pub index: u64,
    /// The offset of the record's first byte.
    pub start_pos: u64,
    /// The length of the record in bytes.
    pub len: u64,
}

/// The sum of the lengths in `lens`.
pub open spec fn total_len(lens: Seq<u64>) -> nat
    decreases lens.len(),
{
    if lens.len() == 0 {
        0
    } else {
        total_len(lens.drop_last()) + lens.last() as nat
    }
}

/// The sum of a beginning of `lens` is at most the sum of all of it.
pub proof fn lemma_total_len_grows(lens: Seq<u64>, i: int)
    requires
        0 <= i <= lens.len(),
    ensures
        total_len(lens.take(i)) <= total_len(lens),
    decreases lens.len() - i,
{
    if i == lens.len() {
        assert(lens.take(i) =~= lens);
    } else {
        lemma_total_len_grows(lens.drop_last(), i);
        assert(lens.drop_last().take(i) =~= lens.take(i));
    }
}

/// One length more adds to the sum.
pub proof fn lemma_total_len_step(lens: Seq<u64>, i: int)
    requires
        0 <= i < lens.len(),
    ensures
        total_len(lens.take(i + 1)) == total_len(lens.take(i)) + lens[i] as nat,
{
    assert(lens.take(i + 1).drop_last() =~= lens.take(i));
}

/// The position of the `i`-th of the records that lie back to back in
/// `segment` with the lengths `lens`.
pub open spec fn packed_pos(segment: u64, lens: Seq<u64>, i: int) -> CommandPos {
    CommandPos { index: segment, start_pos: total_len(lens.take(i)) as u64, len: lens[i] }
}

/// A map from key to `CommandPos` that can also be walked entry by entry.
///
/// The keys and their positions lie densely in two vectors, side by side; a
/// hash map gives each key its slot in them, so that lookup, insertion and
/// removal take constant time.
pub struct Index {
    keys: Vec<String>,
    positions: Vec<CommandPos>,
    slots: StringHashMap<usize>,
}

impl View for Index {
    type V = Map<Seq<char>, CommandPos>;

    closed spec fn view(&self) -> Map<Seq<char>, CommandPos> {
        Map::new(
            |k: Seq<char>| self.slots@.contains_key(k),
            |k: Seq<char>| self.positions@[self.slots@[k] as int],
        )
    }
}

impl Index {
    /// Every entry is found through its slot, and every slot leads to the
    /// entry of its key.
    pub closed spec fn wf(&self) -> bool {
        &&& self.keys@.len() == self.positions@.len()
        &&& forall|i: int|
            0 <= i < self.keys@.len() ==> {
                &&& self.slots@.contains_key(#[trigger] self.keys@[i]@)
                &&& self.slots@[self.keys@[i]@] == i
            }
        &&& forall|k: Seq<char>| #[trigger]
            self.slots@.contains_key(k) ==> {
                &&& 0 <= self.slots@[k] < self.keys@.len()
                &&& self.keys@[self.slots@[k] as int]@ == k
            }
    }

    /// The keys in the order in which the entries are walked.
    pub closed spec fn keys(&self) -> Seq<Seq<char>> {
        Seq::new(self.keys@.len(), |i: int| self.keys@[i]@)
    }

    /// The positions in the order in which the entries are walked.
    pub closed spec fn positions(&self) -> Seq<CommandPos> {
        self.positions@
    }

    /// No key is walked twice, the keys walked are the keys of the map, and
    /// each is walked together with the position the map gives it.
    pub proof fn lemma_walk(&self)
        requires
            self.wf(),
        ensures
            self.keys().len() == self.positions().len(),
            self.keys().no_duplicates(),
            forall|i: int|
                0 <= i < self.keys().len() ==> {
                    &&& self@.contains_key(#[trigger] self.keys()[i])
                    &&& self@[self.keys()[i]] == self.positions()[i]
                },
            forall|k: Seq<char>| #[trigger] self@.contains_key(k) ==> self.keys().contains(k),
    {
        assert forall|k: Seq<char>| #[trigger] self@.contains_key(k) implies self.keys().contains(
            k,
        ) by {
            assert(self.keys()[self.slots@[k] as int] == k);
        }
    }

    /// An index without entries.
    pub fn new() -> (r: Index)
        ensures
            r.wf(),
            r@ == Map::<Seq<char>, CommandPos>::empty(),
            r.keys() == Seq::<Seq<char>>::empty(),
    {
        let r = Index { keys: Vec::new(), positions: Vec::new(), slots: StringHashMap::new() };
        assert(r@ =~= Map::<Seq<char>, CommandPos>::empty());
        assert(r.keys() =~= Seq::<Seq<char>>::empty());
        r
    }

    /// The number of live keys.
    pub fn len(&self) -> (n: usize)
        requires
            self.wf(),
        ensures
            n == self.keys().len(),
            n == self.positions().len(),
            n == self@.dom().len(),
    {
        proof {
            self.lemma_walk();
            self.keys().unique_seq_to_set();
            assert(self.keys().to_set() =~= self@.dom());
        }
        self.keys.len()
    }

    /// Whether `key` is live.
    pub fn contains_key(&self, key: &str) -> (b: bool)
        requires
            self.wf(),
        ensures
            b == self@.contains_key(key@),
    {
        self.slots.contains_key(key)
    }

    /// The position recorded for `key`, if it is live.
    pub fn get(&self, key: &str) -> (r: Option<CommandPos>)
        requires
            self.wf(),
        ensures
            r == (if self@.contains_key(key@) {
                Some(self@[key@])
            } else {
                None
            }),
    {
        match self.slots.get(key) {
            Some(slot) => Some(self.positions[*slot]),
            None => None,
        }
    }

    /// The key of the `i`-th entry walked.
    pub fn key_at(&self, i: usize) -> (k: &String)
        requires
            self.wf(),
            i < self.keys().len(),
        ensures
            k@ == self.keys()[i as int],
    {
        &self.keys[i]
    }

    /// The position of the `i`-th entry walked.
    pub fn pos_at(&self, i: usize) -> (p: CommandPos)
        requires
            self.wf(),
            i < self.positions().len(),
        ensures
            p == self.positions()[i as int],
    {
        self.positions[i]
    }

    /// Records `pos` for `key` and returns the position it replaces, if the
    /// key was live.
    pub fn insert(&mut self, key: String, pos: CommandPos) -> (prev: Option<CommandPos>)
        requires
            old(self).wf(),
        ensures
            final(self).wf(),
            final(self)@ == old(self)@.insert(key@, pos),
            prev == (if old(self)@.contains_key(key@) {
                Some(old(self)@[key@])
            } else {
                None
            }),
    {
        let found: Option<usize> = match self.slots.get(key.as_str()) {
            Some(slot) => Some(*slot),
            None => None,
        };
        match found {
            Some(slot) => {
                let prev = self.positions[slot];
                self.positions.set(slot, pos);
                assert(self@ =~= old(self)@.insert(key@, pos));
                Some(prev)
            },
            None => {
                let slot = self.keys.len();
                self.slots.insert(key.clone(), slot);
                self.keys.push(key);
                self.positions.push(pos);
                assert(self@ =~= old(self)@.insert(key@, pos));
                None
            },
        }
    }

    /// Forgets `key` and returns the position it had, if it was live.
    pub fn remove(&mut self, key: &str) -> (prev: Option<CommandPos>)
        requires
            old(self).wf(),
        ensures
            final(self).wf(),
            final(self)@ == old(self)@.remove(key@),
            prev == (if old(self)@.contains_key(key@) {
                Some(old(self)@[key@])
            } else {
                None
            }),
    {
        let found: Option<usize> = match self.slots.get(key) {
            Some(slot) => Some(*slot),
            None => None,
        };
        match found {
            Some(slot) => {
                let last = self.keys.len() - 1;
                if slot != last {
                    let moved = self.keys[last].clone();
                    self.slots.insert(moved, slot);
                }
                self.keys.swap_remove(slot);
                let gone = self.positions.swap_remove(slot);
                self.slots.remove(key);
                assert(self@ =~= old(self)@.remove(key@));
                Some(gone)
            },
            None => {
                assert(self@ =~= old(self)@.remove(key@));
                None
            },
        }
    }

    /// Points every entry to its copy in `segment`, where the records lie
    /// back to back in the order of the walk, the `i`-th with length
    /// `lens[i]`.
    pub(crate) fn relocate(&mut self, segment: u64, lens: &Vec<u64>)
        requires
            old(self).wf(),
            lens@.len() == old(self).keys().len(),
            total_len(lens@) <= u64::MAX,
        ensures
            final(self).wf(),
            final(self).keys() == old(self).keys(),
            final(self)@.dom() == old(self)@.dom(),
            final(self).positions().len() == lens@.len(),
            forall|i: int|
                0 <= i < lens@.len() ==> #[trigger] final(self).positions()[i] == packed_pos(
                    segment,
                    lens@,
                    i,
                ),
    {
        let mut start_pos: u64 = 0;
        let mut i: usize = 0;
        assert(lens@.take(0) =~= Seq::<u64>::empty());
        while i < lens.len()
            invariant
                0 <= i <= lens@.len(),
                self.wf(),
                self.keys == old(self).keys,
                self.slots == old(self).slots,
                self.positions@.len() == lens@.len(),
                total_len(lens@) <= u64::MAX,
                start_pos == total_len(lens@.take(i as int)),
                forall|j: int|
                    0 <= j < i ==> #[trigger] self.positions@[j] == packed_pos(segment, lens@, j),
            decreases lens@.len() - i,
        {
            let len = lens[i];
            proof {
                lemma_total_len_step(lens@, i as int);
                lemma_total_len_grows(lens@, i + 1);
            }
            self.positions.set(i, CommandPos { index: segment, start_pos, len });
            start_pos = start_pos + len;
            i += 1;
        }
        assert(self@.dom() =~= old(self)@.dom());
    }
}

} // verus!
