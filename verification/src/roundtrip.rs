//! A parser for the export wire format, stated at the specification level,
//! and the proof that it inverts the encoder: the JSON text of any pair list
//! parses back to exactly that list, whatever characters the strings hold.

use vstd::prelude::*;
use vstd::utf8::char_u32_cast;

use crate::json::{
    escape, escape_char, hex_digit, json_of, key_prefix, record_text, records_text, value_mid,
};

verus! {

/// The value of a lowercase hexadecimal digit, or -1 for any other character.
pub open spec fn hex_val(c: char) -> int {
    if c == '0' {
        0
    } else if c == '1' {
        1
    } else if c == '2' {
        2
    } else if c == '3' {
        3
    } else if c == '4' {
        4
    } else if c == '5' {
        5
    } else if c == '6' {
        6
    } else if c == '7' {
        7
    } else if c == '8' {
        8
    } else if c == '9' {
        9
    } else if c == 'a' {
        10
    } else if c == 'b' {
        11
    } else if c == 'c' {
        12
    } else if c == 'd' {
        13
    } else if c == 'e' {
        14
    } else if c == 'f' {
        15
    } else {
        -1
    }
}

/// The character a short escape `\x` stands for.
pub open spec fn unescaped_short(e: char) -> char {
    if e == '"' {
        '"'
    } else if e == '\\' {
        '\\'
    } else if e == 'b' {
        '\u{8}'
    } else if e == 't' {
        '\t'
    } else if e == 'n' {
        '\n'
    } else if e == 'f' {
        '\u{c}'
    } else {
        '\r'
    }
}

/// Reads a JSON string body up to and over its closing quote. Returns the
/// unescaped content and the text after the quote, or `None` if the text is
/// not a string body of the wire format.
pub open spec fn unescape_str(s: Seq<char>) -> Option<(Seq<char>, Seq<char>)>
    decreases s.len(),
{
    if s.len() == 0 {
        None
    } else if s[0] == '"' {
        Some((Seq::empty(), s.drop_first()))
    } else if s[0] == '\\' {
        if s.len() < 2 {
            None
        } else {
            let e = s[1];
            if e == '"' || e == '\\' || e == 'b' || e == 't' || e == 'n' || e == 'f' || e == 'r' {
                match unescape_str(s.skip(2)) {
                    Some((content, rest)) => Some((seq![unescaped_short(e)] + content, rest)),
                    None => None,
                }
            } else if e == 'u' {
                // The wire format spells a `\u` escape only for the control
                // characters below 0x20 that have no short escape.
                if s.len() >= 6 && s[2] == '0' && s[3] == '0' && hex_val(s[4]) >= 0 && hex_val(
                    s[5],
                ) >= 0 && 16 * hex_val(s[4]) + hex_val(s[5]) < 0x20 {
                    match unescape_str(s.skip(6)) {
                        Some((content, rest)) => Some(
                            (
                                seq![((16 * hex_val(s[4]) + hex_val(s[5])) as u32) as char]
                                    + content,
                                rest,
                            ),
                        ),
                        None => None,
                    }
                } else {
                    None
                }
            } else {
                None
            }
        }
    } else {
        match unescape_str(s.drop_first()) {
            Some((content, rest)) => Some((seq![s[0]] + content, rest)),
            None => None,
        }
    }
}

/// Reads one record `{"key":"…","value":"…"}`. Returns the pair and the text
/// after the record, or `None`.
pub open spec fn parse_record(s: Seq<char>) -> Option<((Seq<char>, Seq<char>), Seq<char>)> {
    if s.len() >= 8 && s.take(8) == key_prefix() {
        match unescape_str(s.skip(8)) {
            Some((key, r1)) => {
                if r1.len() >= 10 && r1.take(10) == value_mid().drop_first() {
                    match unescape_str(r1.skip(10)) {
                        Some((value, r2)) => {
                            if r2.len() >= 1 && r2[0] == '}' {
                                Some(((key, value), r2.drop_first()))
                            } else {
                                None
                            }
                        },
                        None => None,
                    }
                } else {
                    None
                }
            },
            None => None,
        }
    } else {
        None
    }
}

/// Reads one or more comma-separated records followed by the closing `]`,
/// which must end the text.
pub open spec fn parse_records(s: Seq<char>) -> Option<Seq<(Seq<char>, Seq<char>)>>
    decreases s.len(),
{
    match parse_record(s) {
        Some((p, rest)) => {
            if rest == seq![']'] {
                Some(seq![p])
            } else if rest.len() >= 1 && rest[0] == ',' && rest.len() <= s.len() {
                // `parse_record` only ever leaves a suffix of its input, so
                // the length bound rejects nothing; it makes the recursion's
                // termination evident.
                match parse_records(rest.drop_first()) {
                    Some(ps) => Some(seq![p] + ps),
                    None => None,
                }
            } else {
                None
            }
        },
        None => None,
    }
}

/// Reads a whole export text: `[]`, or records inside `[` and `]`.
pub open spec fn parse_pairs(s: Seq<char>) -> Option<Seq<(Seq<char>, Seq<char>)>> {
    if s == seq!['[', ']'] {
        Some(Seq::empty())
    } else if s.len() >= 1 && s[0] == '[' {
        parse_records(s.drop_first())
    } else {
        None
    }
}

/// Reading a lowercase hexadecimal digit back gives the value it was written
/// from.
proof fn lemma_hex_val_digit(n: int)
    requires
        0 <= n < 16,
    ensures
        hex_val(hex_digit(n)) == n,
{
}

/// Unescaping inverts escaping: the escaped body of any string, followed by
/// its closing quote and anything further, reads back as exactly that string.
pub proof fn lemma_unescape_escape(k: Seq<char>, rest: Seq<char>)
    ensures
        unescape_str(escape(k) + seq!['"'] + rest) == Some((k, rest)),
    decreases k.len(),
{
    let s = escape(k) + seq!['"'] + rest;
    if k.len() == 0 {
        assert(s[0] == '"');
        assert(s.drop_first() =~= rest);
        assert(Seq::<char>::empty() =~= k);
    } else {
        let c = k[0];
        let tail = escape(k.drop_first()) + seq!['"'] + rest;
        lemma_unescape_escape(k.drop_first(), rest);
        assert(escape(k) == escape_char(c) + escape(k.drop_first()));
        if c == '"' || c == '\\' || c == '\u{8}' || c == '\t' || c == '\n' || c == '\u{c}' || c
            == '\r' {
            assert(s[0] == '\\' && s[1] == escape_char(c)[1]);
            assert(unescaped_short(escape_char(c)[1]) == c);
            assert(s.skip(2) =~= tail);
            assert(seq![c] + k.drop_first() =~= k);
        } else if (c as u32) < 0x20 {
            let u: u32 = c as u32;
            let n: int = u as int;
            assert(0 <= n < 0x20);
            assert(s[0] == '\\' && s[1] == 'u' && s[2] == '0' && s[3] == '0');
            assert(s[4] == hex_digit(n / 16) && s[5] == hex_digit(n % 16));
            lemma_hex_val_digit(n / 16);
            lemma_hex_val_digit(n % 16);
            assert(16 * hex_val(s[4]) + hex_val(s[5]) == n);
            assert((n as u32) == u);
            char_u32_cast(c, u);
            assert(((16 * hex_val(s[4]) + hex_val(s[5])) as u32) as char == c);
            assert(s.skip(6) =~= tail);
            assert(seq![c] + k.drop_first() =~= k);
        } else {
            assert(s[0] == c);
            assert(s.drop_first() =~= tail);
            assert(seq![c] + k.drop_first() =~= k);
        }
    }
}

/// Reading one record inverts writing one: the record text of any pair,
/// followed by anything, reads back as exactly that pair.
pub proof fn lemma_parse_record_text(p: (Seq<char>, Seq<char>), tail: Seq<char>)
    ensures
        parse_record(record_text(p) + tail) == Some((p, tail)),
{
    let s = record_text(p) + tail;
    let r1 = value_mid().drop_first() + escape(p.1) + seq!['"'] + (seq!['}'] + tail);
    assert(s.take(8) =~= key_prefix());
    assert(s.skip(8) =~= escape(p.0) + seq!['"'] + r1);
    lemma_unescape_escape(p.0, r1);
    assert(r1.take(10) =~= value_mid().drop_first());
    assert(r1.skip(10) =~= escape(p.1) + seq!['"'] + (seq!['}'] + tail));
    lemma_unescape_escape(p.1, seq!['}'] + tail);
    assert((seq!['}'] + tail)[0] == '}');
    assert((seq!['}'] + tail).drop_first() =~= tail);
    assert((p.0, p.1) == p);
}

/// Reading the records of a non-empty pair list, closed by `]`, gives back
/// exactly that list.
proof fn lemma_parse_records_text(ps: Seq<(Seq<char>, Seq<char>)>)
    requires
        ps.len() >= 1,
    ensures
        parse_records(records_text(ps) + seq![']']) == Some(ps),
    decreases ps.len(),
{
    let s = records_text(ps) + seq![']'];
    if ps.len() == 1 {
        lemma_parse_record_text(ps[0], seq![']']);
        assert(records_text(ps) == record_text(ps[0]));
        assert(seq![ps[0]] =~= ps);
    } else {
        let rest0 = seq![','] + records_text(ps.drop_first()) + seq![']'];
        assert(s =~= record_text(ps[0]) + rest0);
        lemma_parse_record_text(ps[0], rest0);
        assert(parse_record(s) == Some((ps[0], rest0)));
        assert(rest0.len() >= 2);
        assert(rest0 != seq![']']);
        assert(rest0[0] == ',');
        assert(rest0.len() <= s.len());
        lemma_parse_records_text(ps.drop_first());
        assert(rest0.drop_first() =~= records_text(ps.drop_first()) + seq![']']);
        assert(seq![ps[0]] + ps.drop_first() =~= ps);
    }
}

/// Round trip: the export text of any pair list — the strings arbitrary,
/// quotes, backslashes and control characters included — parses back to
/// exactly that list.
pub proof fn lemma_export_round_trip(ps: Seq<(Seq<char>, Seq<char>)>)
    ensures
        parse_pairs(json_of(ps)) == Some(ps),
{
    let s = json_of(ps);
    if ps.len() == 0 {
        assert(s =~= seq!['[', ']']);
    } else {
        assert(records_text(ps).len() >= 1);
        assert(s.len() >= 3);
        assert(s != seq!['[', ']']);
        assert(s[0] == '[');
        assert(s.drop_first() =~= records_text(ps) + seq![']']);
        lemma_parse_records_text(ps);
    }
}

} // verus!
