//! The name table's records.

use crate::text::{ascii_alphanumeric, is_ascii_alphanumeric, str_chars, string_from_chars};
use vstd::prelude::*;
use vstd::string::*;

verus! {

/// A character that a PostScript name keeps: an ASCII letter or digit, `-` or `_`.
pub open spec fn postscript_char(c: char) -> bool {
    is_ascii_alphanumeric(c) || c == '-' || c == '_'
}

/// The characters of `s` that a PostScript name keeps, in order.
pub open spec fn kept_chars(s: Seq<char>) -> Seq<char> {
    s.filter(|c: char| postscript_char(c))
}

/// The PostScript form of a name: its ASCII letters, digits, `-` and `_`, at
/// most 63 of them; `BitmapFont-Regular` when none remain.
pub open spec fn postscript_name(input: Seq<char>) -> Seq<char> {
    let kept = kept_chars(input);
    let taken = if kept.len() > 63 {
        kept.take(63)
    } else {
        kept
    };
    if taken.len() == 0 {
        "BitmapFont-Regular"@
    } else {
        taken
    }
}

/// The `(platform, encoding, language, name id, text)` records of the name
/// table for a family: family and subfamily for Macintosh, then family,
/// subfamily, unique id, full name, version and PostScript name for Windows
/// (US English).
pub open spec fn name_records_of(family: Seq<char>) -> Seq<(u16, u16, u16, u16, Seq<char>)> {
    let ps = postscript_name(family + "-Regular"@);
    seq![
        (1u16, 0u16, 0u16, 1u16, family),
        (1u16, 0u16, 0u16, 2u16, "Regular"@),
        (3u16, 1u16, 0x0409u16, 1u16, family),
        (3u16, 1u16, 0x0409u16, 2u16, "Regular"@),
        (3u16, 1u16, 0x0409u16, 3u16, ps + ";Version 1.0"@),
        (3u16, 1u16, 0x0409u16, 4u16, family + " Regular"@),
        (3u16, 1u16, 0x0409u16, 5u16, "Version 1.0"@),
        (3u16, 1u16, 0x0409u16, 6u16, ps),
    ]
}

/// A family name short enough for every record of the name table: the
/// longest record, the full name, adds eight characters to it, and the name
/// table is written only for records of at most 16383 characters.
pub open spec fn family_fits(family: Seq<char>) -> bool {
    family.len() <= 16375
}

/// The records of a family that fits hold at most 16383 characters each.
pub proof fn lemma_name_records_short(family: Seq<char>)
    requires
        family_fits(family),
    ensures
        name_records_of(family).len() == 8,
        forall|i: int| 0 <= i < 8 ==> (#[trigger] name_records_of(family)[i]).4.len() <= 16383,
{
    reveal_strlit("Regular");
    reveal_strlit(";Version 1.0");
    reveal_strlit(" Regular");
    reveal_strlit("Version 1.0");
    reveal_strlit("BitmapFont-Regular");
    let ps = postscript_name(family + "-Regular"@);
    assert(ps.len() <= 63);
    let records = name_records_of(family);
    assert forall|i: int| 0 <= i < 8 implies (#[trigger] records[i]).4.len() <= 16383 by {
        if i == 4 {
            assert(records[i].4 == ps + ";Version 1.0"@);
        }
    }
}

/// Characters that a PostScript name keeps are all kept.
proof fn lemma_kept_all(s: Seq<char>)
    requires
        forall|i: int| 0 <= i < s.len() ==> postscript_char(#[trigger] s[i]),
    ensures
        kept_chars(s) == s,
    decreases s.len(),
{
    reveal_with_fuel(Seq::filter, 1);
    if s.len() > 0 {
        let rest = s.drop_last();
        assert forall|i: int| 0 <= i < rest.len() implies postscript_char(#[trigger] rest[i]) by {
            assert(rest[i] == s[i]);
        }
        lemma_kept_all(rest);
        assert(postscript_char(s[s.len() - 1]));
        assert(rest.push(s.last()) =~= s);
    } else {
        assert(kept_chars(s) =~= s);
    }
}

/// Law: a PostScript name is its own PostScript form.
pub proof fn lemma_postscript_name_idempotent(input: Seq<char>)
    ensures
        postscript_name(postscript_name(input)) == postscript_name(input),
{
    reveal_strlit("BitmapFont-Regular");
    let kept = kept_chars(input);
    kept.filter_lemma(|c: char| postscript_char(c));
    input.filter_lemma(|c: char| postscript_char(c));
    let ps = postscript_name(input);
    assert forall|i: int| 0 <= i < ps.len() implies postscript_char(#[trigger] ps[i]) by {
        if kept.len() > 0 {
            if kept.len() > 63 {
                assert(ps[i] == kept[i]);
            }
        }
    }
    lemma_kept_all(ps);
}

/// The records as plain values.
pub open spec fn records_view(records: Seq<(u16, u16, u16, u16, String)>) -> Seq<(u16, u16, u16, u16, Seq<char>)> {
    records.map_values(|e: (u16, u16, u16, u16, String)| (e.0, e.1, e.2, e.3, e.4@))
}

pub(crate) fn build_name_records(family_name: &str) -> (records: Vec<(u16, u16, u16, u16, String)>)
    ensures
        records_view(records@) == name_records_of(family_name@),
{
    let mut suffixed = String::from_str(family_name);
    suffixed.append("-Regular");
    let postscript_name = sanitize_postscript_name(suffixed.as_str());
    let mut records: Vec<(u16, u16, u16, u16, String)> = Vec::new();
    records.push((1, 0, 0, 1, String::from_str(family_name)));
    records.push((1, 0, 0, 2, String::from_str("Regular")));
    records.push((3, 1, 0x0409, 1, String::from_str(family_name)));
    records.push((3, 1, 0x0409, 2, String::from_str("Regular")));
    let mut unique_id = postscript_name.clone();
    unique_id.append(";Version 1.0");
    records.push((3, 1, 0x0409, 3, unique_id));
    let mut full_name = String::from_str(family_name);
    full_name.append(" Regular");
    records.push((3, 1, 0x0409, 4, full_name));
    records.push((3, 1, 0x0409, 5, String::from_str("Version 1.0")));
    records.push((3, 1, 0x0409, 6, postscript_name));
    proof {
        assert(records_view(records@) =~= name_records_of(family_name@));
    }
    records
}

/// The PostScript form of a name: its ASCII letters, digits, `-` and `_`, at
/// most 63 of them, or `BitmapFont-Regular` when none is left.
pub fn sanitize_postscript_name(input: &str) -> (name: String)
    ensures
        name@ == postscript_name(input@),
{
    let chars = str_chars(input);
    let mut kept: Vec<char> = Vec::new();
    let mut i: usize = 0;
    while i < chars.len() && kept.len() < 63
        invariant
            i <= chars@.len(),
            chars@ == input@,
            kept@.len() <= 63,
            kept@ == kept_chars(chars@.take(i as int)),
        decreases chars@.len() - i,
    {
        let c = chars[i];
        proof {
            assert(chars@.take(i + 1).drop_last() =~= chars@.take(i as int));
            reveal_with_fuel(Seq::filter, 1);
        }
        if ascii_alphanumeric(c) || c == '-' || c == '_' {
            kept.push(c);
        }
        i = i + 1;
    }
    proof {
        let all = kept_chars(input@);
        lemma_filter_prefix(input@, i as int);
        if i == chars@.len() {
            assert(chars@.take(i as int) =~= chars@);
        } else {
            assert(kept@.len() == 63);
            assert(kept@ =~= all.take(63));
        }
    }
    if kept.len() == 0 {
        String::from_str("BitmapFont-Regular")
    } else {
        string_from_chars(&kept)
    }
}

/// Filtering a prefix gives a prefix of the filtered whole.
proof fn lemma_filter_prefix(s: Seq<char>, i: int)
    requires
        0 <= i <= s.len(),
    ensures
        kept_chars(s.take(i)).len() <= kept_chars(s).len(),
        forall|k: int| 0 <= k < kept_chars(s.take(i)).len() ==> #[trigger] kept_chars(s.take(i))[k] == kept_chars(s)[k],
    decreases s.len() - i,
{
    if i < s.len() {
        lemma_filter_prefix(s, i + 1);
        assert(s.take(i + 1).drop_last() =~= s.take(i));
        reveal_with_fuel(Seq::filter, 1);
        let part = kept_chars(s.take(i));
        let next = kept_chars(s.take(i + 1));
        assert forall|k: int| 0 <= k < part.len() implies #[trigger] part[k] == kept_chars(s)[k] by {
            assert(next[k] == part[k]);
        }
    } else {
        assert(s.take(i) =~= s);
    }
}

} // verus!
