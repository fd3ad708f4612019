//! The `key=value` fields of a BMFont text line.
//!
//! Fields are separated by ASCII whitespace. A value runs to the next ASCII
//! whitespace, or, when it starts with `"`, to the next `"`. A token without
//! `=` is skipped. When a key occurs twice, the later value counts.

use vstd::prelude::*;
use crate::text::{ascii_white_space, copy_range, is_ascii_white_space, str_chars};

verus! {

/// The first position at or after `i` that does not hold ASCII whitespace.
pub open spec fn skip_white(s: Seq<char>, i: int) -> int
    decreases s.len() - i,
{
    if 0 <= i < s.len() && is_ascii_white_space(s[i]) {
        skip_white(s, i + 1)
    } else {
        i
    }
}

/// The first position at or after `i` that holds `=` or ASCII whitespace.
pub open spec fn key_end(s: Seq<char>, i: int) -> int
    decreases s.len() - i,
{
    if 0 <= i < s.len() && s[i] != '=' && !is_ascii_white_space(s[i]) {
        key_end(s, i + 1)
    } else {
        i
    }
}

/// The first position at or after `i` that holds ASCII whitespace.
pub open spec fn token_end(s: Seq<char>, i: int) -> int
    decreases s.len() - i,
{
    if 0 <= i < s.len() && !is_ascii_white_space(s[i]) {
        token_end(s, i + 1)
    } else {
        i
    }
}

/// The first position at or after `i` that holds `"`.
pub open spec fn quote_end(s: Seq<char>, i: int) -> int
    decreases s.len() - i,
{
    if 0 <= i < s.len() && s[i] != '"' {
        quote_end(s, i + 1)
    } else {
        i
    }
}

/// The scans above stay between their start and the end of the text.
pub proof fn lemma_scan_bounds(s: Seq<char>, i: int)
    requires
        0 <= i <= s.len(),
    ensures
        i <= skip_white(s, i) <= s.len(),
        i <= key_end(s, i) <= s.len(),
        i <= token_end(s, i) <= s.len(),
        i <= quote_end(s, i) <= s.len(),
    decreases s.len() - i,
{
    if i < s.len() {
        lemma_scan_bounds(s, i + 1);
    }
}

/// The value that starts at `start` and the position after it: a quoted value
/// ends before the closing quote, which is passed over; an unquoted one ends at
/// whitespace.
pub open spec fn value_at(s: Seq<char>, start: int) -> (Seq<char>, int) {
    if start >= s.len() {
        (Seq::empty(), start)
    } else if s[start] == '"' {
        let end = quote_end(s, start + 1);
        (s.subrange(start + 1, end), if end < s.len() { end + 1 } else { end })
    } else {
        let end = token_end(s, start);
        (s.subrange(start, end), end)
    }
}

/// The value that starts at `start` ends between `start` and the end of the text.
pub proof fn lemma_value_bounds(s: Seq<char>, start: int)
    requires
        0 <= start <= s.len(),
    ensures
        start <= value_at(s, start).1 <= s.len(),
{
    if start < s.len() {
        lemma_scan_bounds(s, start);
        lemma_scan_bounds(s, start + 1);
    }
}

/// The fields from position `i` on, in order.
pub open spec fn fields_from(s: Seq<char>, i: int) -> Seq<(Seq<char>, Seq<char>)>
    decreases s.len() - i,
{
    if i < 0 || i >= s.len() {
        Seq::empty()
    } else {
        let key_start = skip_white(s, i);
        let key_stop = key_end(s, key_start);
        proof {
            lemma_scan_bounds(s, i);
            lemma_scan_bounds(s, i + 1);
            lemma_scan_bounds(s, key_start);
            lemma_scan_bounds(s, key_stop);
        }
        if key_stop >= s.len() || s[key_stop] != '=' {
            fields_from(s, token_end(s, key_stop))
        } else {
            let value = value_at(s, key_stop + 1);
            proof {
                lemma_value_bounds(s, key_stop + 1);
            }
            seq![(s.subrange(key_start, key_stop), value.0)] + fields_from(s, value.1)
        }
    }
}

/// The fields of a text.
pub open spec fn fields(s: Seq<char>) -> Seq<(Seq<char>, Seq<char>)> {
    fields_from(s, 0)
}

/// The value of the last field named `key`.
pub open spec fn field_value(fields: Seq<(Seq<char>, Seq<char>)>, key: Seq<char>) -> Option<Seq<char>>
    decreases fields.len(),
{
    if fields.len() == 0 {
        None
    } else if fields.last().0 == key {
        Some(fields.last().1)
    } else {
        field_value(fields.drop_last(), key)
    }
}

/// One `key=value` field.
pub struct KeyValue {
    pub key: Vec<char>,
    pub value: Vec<char>,
}

/// The fields of a line, in the order they stand; a lookup takes the last field
/// with the key. They are kept in a `Vec` rather than a hash map because vstd
/// specifies hash-map lookups only for integer and `bool` keys, not for `String` keys.
pub struct KeyValues {
    pub entries: Vec<KeyValue>,
}

impl KeyValues {
    /// The fields as pairs of character sequences.
    pub open spec fn pairs(&self) -> Seq<(Seq<char>, Seq<char>)> {
        self.entries@.map_values(|e: KeyValue| (e.key@, e.value@))
    }

    /// The value that counts for `key`: that of its last occurrence.
    pub fn get(&self, key: &str) -> (r: Option<&Vec<char>>)
        ensures
            match r {
                Some(v) => field_value(self.pairs(), key@) == Some(v@),
                None => field_value(self.pairs(), key@) is None,
            },
    {
        let wanted = str_chars(key);
        let mut k: usize = self.entries.len();
        assert(self.pairs().take(k as int) =~= self.pairs());
        while k > 0
            invariant
                k <= self.entries.len(),
                wanted@ == key@,
                field_value(self.pairs(), key@) == field_value(self.pairs().take(k as int), key@),
            decreases k,
        {
            let entry = &self.entries[k - 1];
            assert(self.pairs().take(k as int).last() == (entry.key@, entry.value@));
            assert(self.pairs().take(k as int).drop_last() =~= self.pairs().take(k - 1));
            if same_chars(&entry.key, &wanted) {
                return Some(&entry.value);
            }
            k = k - 1;
        }
        None
    }
}

/// Whether two character sequences are equal.
pub fn same_chars(a: &Vec<char>, b: &Vec<char>) -> (r: bool)
    ensures
        r == (a@ == b@),
{
    if a.len() != b.len() {
        return false;
    }
    let mut k: usize = 0;
    while k < a.len()
        invariant
            k <= a.len() == b.len(),
            forall|j: int| 0 <= j < k ==> a@[j] == b@[j],
        decreases a.len() - k,
    {
        if a[k] != b[k] {
            return false;
        }
        k = k + 1;
    }
    assert(a@ =~= b@);
    true
}

/// The position after the token that starts at `index`: the next ASCII
/// whitespace, or the end.
pub fn skip_token(s: &Vec<char>, index: usize) -> (r: usize)
    requires
        index <= s.len(),
    ensures
        r == token_end(s@, index as int),
{
    let mut k = index;
    while k < s.len() && !ascii_white_space(s[k])
        invariant
            index <= k <= s.len(),
            token_end(s@, index as int) == token_end(s@, k as int),
        decreases s.len() - k,
    {
        k = k + 1;
    }
    k
}

/// The value that starts at `start`, and the position after it.
pub fn parse_value(s: &Vec<char>, start: usize) -> (r: (Vec<char>, usize))
    ensures
        (r.0@, r.1 as int) == value_at(s@, start as int),
{
    if start >= s.len() {
        return (Vec::new(), start);
    }
    if s[start] == '"' {
        let mut end = start + 1;
        while end < s.len() && s[end] != '"'
            invariant
                start < end <= s.len(),
                quote_end(s@, start + 1) == quote_end(s@, end as int),
            decreases s.len() - end,
        {
            end = end + 1;
        }
        let next = if end < s.len() { end + 1 } else { end };
        (copy_range(s, start + 1, end), next)
    } else {
        let end = skip_token(s, start);
        proof {
            lemma_scan_bounds(s@, start as int);
        }
        (copy_range(s, start, end), end)
    }
}

/// Splits a line's text into its `key=value` fields.
pub fn parse_key_values(s: &Vec<char>) -> (r: KeyValues)
    ensures
        r.pairs() == fields(s@),
{
    let mut values = KeyValues { entries: Vec::new() };
    let mut index: usize = 0;
    assert(values.pairs() =~= Seq::<(Seq<char>, Seq<char>)>::empty());
    while index < s.len()
        invariant
            index <= s.len(),
            values.pairs() + fields_from(s@, index as int) == fields(s@),
        decreases s.len() - index,
    {
        let ghost i = index as int;
        while index < s.len() && ascii_white_space(s[index])
            invariant
                i <= index <= s.len(),
                skip_white(s@, i) == skip_white(s@, index as int),
            decreases s.len() - index,
        {
            index = index + 1;
        }
        let key_start = index;
        while index < s.len() && s[index] != '=' && !ascii_white_space(s[index])
            invariant
                key_start <= index <= s.len(),
                key_end(s@, key_start as int) == key_end(s@, index as int),
            decreases s.len() - index,
        {
            index = index + 1;
        }
        proof {
            lemma_scan_bounds(s@, i);
            lemma_scan_bounds(s@, key_start as int);
            lemma_scan_bounds(s@, index as int);
        }
        if index >= s.len() || s[index] != '=' {
            index = skip_token(s, index);
            continue;
        }
        let key = copy_range(s, key_start, index);
        let (value, next) = parse_value(s, index + 1);
        proof {
            lemma_value_bounds(s@, index + 1);
        }
        let ghost before = values.pairs();
        values.entries.push(KeyValue { key, value });
        proof {
            assert(values.pairs() =~= before.push((s@.subrange(key_start as int, index as int), value_at(s@, index + 1).0)));
            assert(before + fields_from(s@, i) =~= values.pairs() + fields_from(s@, next as int));
        }
        index = next;
    }
    assert(values.pairs() + fields_from(s@, index as int) =~= values.pairs());
    values
}

} // verus!
