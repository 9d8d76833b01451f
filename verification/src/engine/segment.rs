//! The names of segment files: a non-negative decimal number followed by
//! `.log`.

use vstd::prelude::*;
use vstd::string::*;
use vstd::std_specs::cmp::OrdSpec;
use vstd::std_specs::iter::IteratorSpec;
use std::collections::BTreeMap;

verus! {

/// Whether `c` is one of `0` to `9`.
pub open spec fn is_digit(c: char) -> bool {
    48 <= c as u32 <= 57
}

/// The number a digit stands for.
pub open spec fn digit_value(c: char) -> nat {
    (c as u32 - 48) as nat
}

/// The digit that stands for `d`, for `d` below ten.
pub open spec fn digit_char(d: nat) -> char {
    if d == 0 {
        '0'
    } else if d == 1 {
        '1'
    } else if d == 2 {
        '2'
    } else if d == 3 {
        '3'
    } else if d == 4 {
        '4'
    } else if d == 5 {
        '5'
    } else if d == 6 {
        '6'
    } else if d == 7 {
        '7'
    } else if d == 8 {
        '8'
    } else {
        '9'
    }
}

/// Whether `s` holds digits only.
pub open spec fn all_digits(s: Seq<char>) -> bool {
    forall|i: int| 0 <= i < s.len() ==> is_digit(#[trigger] s[i])
}

/// The number that the digits of `s` write in base ten.
pub open spec fn decimal_value(s: Seq<char>) -> nat
    decreases s.len(),
{
    if s.len() == 0 {
        0
    } else {
        decimal_value(s.drop_last()) * 10 + digit_value(s.last())
    }
}

/// The digits that write `n` in base ten, without leading zeros.
pub open spec fn decimal_digits(n: nat) -> Seq<char>
    decreases n,
{
    if n < 10 {
        seq![digit_char(n)]
    } else {
        decimal_digits(n / 10).push(digit_char(n % 10))
    }
}

/// The number that the digits of `s` write, if there is at least one, all
/// are digits and the number fits in 64 bits. Leading zeros are allowed.
pub open spec fn digits_number(s: Seq<char>) -> Option<u64> {
    if s.len() > 0 && all_digits(s) && decimal_value(s) <= u64::MAX {
        Some(decimal_value(s) as u64)
    } else {
        None
    }
}

/// The number that `s` writes, read as an unsigned 64-bit integer is read:
/// an optional `+`, then the digits.
pub open spec fn parse_number(s: Seq<char>) -> Option<u64> {
    if s.len() > 0 && s[0] == '+' {
        digits_number(s.skip(1))
    } else {
        digits_number(s)
    }
}

/// The ending of every segment file name.
pub open spec fn log_suffix() -> Seq<char> {
    seq!['.', 'l', 'o', 'g']
}

/// The segment index that a file name stands for, if it is the name of a
/// segment file.
pub open spec fn segment_index(name: Seq<char>) -> Option<u64> {
    if name.len() >= 4 && name.skip(name.len() - 4) == log_suffix() {
        parse_number(name.take(name.len() - 4))
    } else {
        None
    }
}

/// The name of the segment file with the given index.
pub open spec fn segment_name(index: u64) -> Seq<char> {
    decimal_digits(index as nat) + log_suffix()
}

/// A number written in digits is at least the number that any of its
/// beginnings writes.
proof fn lemma_decimal_value_grows(s: Seq<char>, k: int)
    requires
        0 <= k <= s.len(),
    ensures
        decimal_value(s.take(k)) <= decimal_value(s),
    decreases s.len() - k,
{
    if k == s.len() {
        assert(s.take(k) =~= s);
    } else {
        lemma_decimal_value_grows(s.drop_last(), k);
        assert(s.drop_last().take(k) =~= s.take(k));
    }
}

/// Reading one more digit multiplies by ten and adds the digit.
proof fn lemma_decimal_value_step(s: Seq<char>, from: int, to: int)
    requires
        0 <= from <= to < s.len(),
    ensures
        decimal_value(s.subrange(from, to + 1)) == decimal_value(s.subrange(from, to)) * 10
            + digit_value(s[to]),
{
    assert(s.subrange(from, to + 1).drop_last() =~= s.subrange(from, to));
}

/// The digits of a number are digits, there is at least one, the first is
/// no sign, and together they write the number.
pub proof fn lemma_decimal_digits(n: nat)
    ensures
        decimal_digits(n).len() > 0,
        all_digits(decimal_digits(n)),
        decimal_digits(n)[0] != '+',
        decimal_value(decimal_digits(n)) == n,
    decreases n,
{
    if n < 10 {
        let s = seq![digit_char(n)];
        assert(s.drop_last() =~= Seq::<char>::empty());
        assert(decimal_value(s.drop_last()) == 0);
    } else {
        lemma_decimal_digits(n / 10);
        let s = decimal_digits(n / 10);
        let t = s.push(digit_char(n % 10));
        assert(t.drop_last() =~= s);
        assert(t[0] == s[0]);
    }
}

/// The name made for a segment index is read back as that index.
pub proof fn lemma_segment_name_round_trip(index: u64)
    ensures
        segment_index(segment_name(index)) == Some(index),
{
    let digits = decimal_digits(index as nat);
    let name = segment_name(index);
    lemma_decimal_digits(index as nat);
    assert(name.skip(name.len() - 4) =~= log_suffix());
    assert(name.take(name.len() - 4) =~= digits);
}

/// The one-character string of a digit.
fn digit_str(d: u64) -> (r: &'static str)
    requires
        d < 10,
    ensures
        r@ == seq![digit_char(d as nat)],
{
    proof {
        reveal_strlit("0");
        reveal_strlit("1");
        reveal_strlit("2");
        reveal_strlit("3");
        reveal_strlit("4");
        reveal_strlit("5");
        reveal_strlit("6");
        reveal_strlit("7");
        reveal_strlit("8");
        reveal_strlit("9");
    }
    let r = if d == 0 {
        "0"
    } else if d == 1 {
        "1"
    } else if d == 2 {
        "2"
    } else if d == 3 {
        "3"
    } else if d == 4 {
        "4"
    } else if d == 5 {
        "5"
    } else if d == 6 {
        "6"
    } else if d == 7 {
        "7"
    } else if d == 8 {
        "8"
    } else {
        "9"
    };
    assert(r@ =~= seq![digit_char(d as nat)]);
    r
}

/// Appends the digits of `n` to `s`.
fn push_decimal(s: &mut String, n: u64)
    ensures
        final(s)@ == old(s)@ + decimal_digits(n as nat),
    decreases n,
{
    if n >= 10 {
        push_decimal(s, n / 10);
    }
    s.append(digit_str(n % 10));
    assert(s@ =~= old(s)@ + decimal_digits(n as nat));
}

/// The name of the segment file with the given index: its digits and `.log`.
pub fn segment_file_name(index: u64) -> (r: String)
    ensures
        r@ == segment_name(index),
        segment_index(r@) == Some(index),
{
    let mut s = String::new();
    push_decimal(&mut s, index);
    proof {
        reveal_strlit(".log");
        lemma_segment_name_round_trip(index);
    }
    s.append(".log");
    assert(s@ =~= segment_name(index));
    s
}

/// The name of the file that goes by `name`: `name` and `.log`.
pub fn named_file_name(name: &str) -> (r: String)
    ensures
        r@ == name@ + log_suffix(),
{
    let mut s = String::from_str(name);
    proof {
        reveal_strlit(".log");
    }
    s.append(".log");
    assert(s@ =~= name@ + log_suffix());
    s
}

/// Reads a file name as the name of a segment file and returns its index.
pub fn parse_segment_index(name: &str) -> (r: Option<u64>)
    ensures
        r == segment_index(name@),
{
    let n = name.unicode_len();
    if n < 4 {
        return None;
    }
    let stem = n - 4;
    if !(name.get_char(stem) == '.' && name.get_char(stem + 1) == 'l' && name.get_char(stem + 2)
        == 'o' && name.get_char(stem + 3) == 'g') {
        assert(name@.skip(stem as int)[0] == name@[stem as int]);
        assert(name@.skip(stem as int)[1] == name@[stem + 1]);
        assert(name@.skip(stem as int)[2] == name@[stem + 2]);
        assert(name@.skip(stem as int)[3] == name@[stem + 3]);
        return None;
    }
    assert(name@.skip(stem as int) =~= log_suffix());
    let start: usize = if stem > 0 && name.get_char(0) == '+' {
        1
    } else {
        0
    };
    let ghost digits = name@.subrange(start as int, stem as int);
    proof {
        let s = name@.take(stem as int);
        if start == 1 {
            assert(s.skip(1) =~= digits);
        } else {
            assert(s =~= digits);
        }
    }
    assert(segment_index(name@) == digits_number(digits));
    if start == stem {
        return None;
    }
    let mut i: usize = start;
    let mut acc: u64 = 0;
    assert(name@.subrange(start as int, start as int) =~= Seq::<char>::empty());
    while i < stem
        invariant
            start <= i <= stem,
            stem + 4 == name@.len(),
            digits == name@.subrange(start as int, stem as int),
            segment_index(name@) == digits_number(digits),
            all_digits(name@.subrange(start as int, i as int)),
            acc == decimal_value(name@.subrange(start as int, i as int)),
        decreases stem - i,
    {
        let c = name.get_char(i);
        let v: u32 = c as u32;
        if v < 48 || v > 57 {
            assert(digits[i - start] == c);
            return None;
        }
        let d: u64 = (v - 48) as u64;
        proof {
            lemma_decimal_value_step(name@, start as int, i as int);
            lemma_decimal_value_grows(digits, i + 1 - start);
            assert(digits.take(i + 1 - start) =~= name@.subrange(start as int, i + 1));
        }
        let next = match acc.checked_mul(10) {
            Some(m) => m.checked_add(d),
            None => None,
        };
        match next {
            Some(value) => {
                acc = value;
            },
            None => {
                return None;
            },
        }
        assert forall|j: int| 0 <= j < i + 1 - start implies is_digit(
            #[trigger] name@.subrange(start as int, i + 1)[j],
        ) by {
            if j < i - start {
                assert(name@.subrange(start as int, i as int)[j] == name@[start + j]);
            }
        }
        i += 1;
    }
    Some(acc)
}

/// Whether `name` is the name of a segment file.
pub fn is_log_file(name: &str) -> (b: bool)
    ensures
        b == segment_index(name@).is_some(),
{
    parse_segment_index(name).is_some()
}

/// Whether one of `names` is the name of the segment file with this index.
pub open spec fn names_hold(names: Seq<String>, index: u64) -> bool {
    exists|j: int| 0 <= j < names.len() && segment_index(#[trigger] names[j]@) == Some(index)
}

/// Whether each number in `s` is below the next.
pub open spec fn ascending(s: Seq<u64>) -> bool {
    forall|i: int, j: int| 0 <= i < j < s.len() ==> s[i] < s[j]
}

/// The segment indices that the names of a directory listing hold, each
/// with the place in the listing of the last name that holds it.
fn collect_indices(names: &Vec<String>) -> (log_map: BTreeMap<u64, usize>)
    ensures
        forall|index: u64| log_map@.contains_key(index) <==> names_hold(names@, index),
{
    let mut log_map: BTreeMap<u64, usize> = BTreeMap::new();
    let mut n: usize = 0;
    while n < names.len()
        invariant
            0 <= n <= names@.len(),
            forall|index: u64|
                log_map@.contains_key(index) <==> names_hold(names@.take(n as int), index),
        decreases names@.len() - n,
    {
        let found = parse_segment_index(names[n].as_str());
        proof {
            let before = names@.take(n as int);
            let now = names@.take(n + 1);
            assert forall|index: u64| names_hold(now, index) <==> (names_hold(before, index)
                || found == Some(index)) by {
                if names_hold(before, index) {
                    let j = choose|j: int|
                        0 <= j < before.len() && segment_index(#[trigger] before[j]@) == Some(
                            index,
                        );
                    assert(now[j] == before[j]);
                }
                if found == Some(index) {
                    assert(segment_index(now[n as int]@) == Some(index));
                }
                if names_hold(now, index) {
                    let j = choose|j: int|
                        0 <= j < now.len() && segment_index(#[trigger] now[j]@) == Some(index);
                    if j < n {
                        assert(before[j] == now[j]);
                    }
                }
            }
        }
        match found {
            Some(index) => {
                log_map.insert(index, n);
            },
            None => {},
        }
        n += 1;
    }
    assert(names@.take(n as int) =~= names@);
    log_map
}

/// The keys of `log_map` in ascending order.
fn ascending_keys(log_map: &BTreeMap<u64, usize>) -> (r: Vec<u64>)
    ensures
        ascending(r@),
        forall|index: u64| r@.contains(index) <==> log_map@.contains_key(index),
{
    broadcast use vstd::std_specs::btree::group_btree_axioms;

    let mut r: Vec<u64> = Vec::new();
    let ghost all = vstd::std_specs::btree::spec_btree_map_iter(log_map).remaining();
    let ghost found = all.map_values(|kv: (&u64, &usize)| *kv.0);
    for kv in it: log_map.iter()
        invariant
            it.seq() == all,
            found == all.map_values(|kv: (&u64, &usize)| *kv.0),
            r@ == found.take(it.index()),
    {
        r.push(*kv.0);
        assert(r@ =~= found.take(it.index() + 1));
    }
    assert(r@ =~= found);
    assert(vstd::std_specs::btree::increasing_seq(found));
    assert forall|i: int, j: int| 0 <= i < j < r@.len() implies r@[i] < r@[j] by {
        assert(found[i].cmp_spec(&found[j]) is Less);
    }
    assert forall|index: u64| r@.contains(index) <==> log_map@.contains_key(index) by {
        if log_map@.contains_key(index) {
            let p = (&index, &log_map@[index]);
            assert(all.contains(p));
            let i = choose|i: int| 0 <= i < all.len() && all[i] == p;
            assert(found[i] == index);
        }
        if r@.contains(index) {
            let i = choose|i: int| 0 <= i < r@.len() && r@[i] == index;
            assert(log_map@.contains_key(*all[i].0));
        }
    }
    r
}

/// The indices of the segment files among the names of a directory listing,
/// each once, in ascending order: the order in which the segments are
/// replayed.
pub fn scan_log_files(names: &Vec<String>) -> (r: Vec<u64>)
    ensures
        ascending(r@),
        forall|index: u64| r@.contains(index) <==> names_hold(names@, index),
{
    let log_map = collect_indices(names);
    ascending_keys(&log_map)
}

/// The names among `names` that are those of segment files with an index
/// below `below`, in the order of `names`.
pub open spec fn names_below(names: Seq<String>, below: u64) -> Seq<Seq<char>>
    decreases names.len(),
{
    if names.len() == 0 {
        Seq::empty()
    } else {
        let rest = names_below(names.drop_last(), below);
        match segment_index(names.last()@) {
            Some(index) => if index < below {
                rest.push(names.last()@)
            } else {
                rest
            },
            None => rest,
        }
    }
}

/// What a list of strings says.
pub open spec fn strings_view(strings: Seq<String>) -> Seq<Seq<char>> {
    strings.map_values(|s: String| s@)
}

/// The names among `names` that are those of segment files with an index
/// below `below`, in the order of `names`.
pub fn log_files_below(names: &Vec<String>, below: u64) -> (r: Vec<String>)
    ensures
        strings_view(r@) == names_below(names@, below),
{
    let mut r: Vec<String> = Vec::new();
    let mut n: usize = 0;
    assert(names@.take(0) =~= Seq::<String>::empty());
    while n < names.len()
        invariant
            0 <= n <= names@.len(),
            strings_view(r@) == names_below(names@.take(n as int), below),
        decreases names@.len() - n,
    {
        assert(names@.take(n + 1).drop_last() =~= names@.take(n as int));
        match parse_segment_index(names[n].as_str()) {
            Some(index) => {
                if index < below {
                    let ghost before = strings_view(r@);
                    r.push(names[n].clone());
                    assert(strings_view(r@) =~= before.push(names@[n as int]@));
                }
            },
            None => {},
        }
        n += 1;
    }
    assert(names@.take(n as int) =~= names@);
    r
}

} // verus!
