//! The export wire format: a JSON array of objects, each with the two string
//! fields `"key"` and `"value"`, in list order. `json_of` states the exact
//! text; the executable helpers here build it character by character.
//!
//! Strings use standard JSON escaping: `"` and `\` get a backslash, the five
//! named control characters get their short escapes, every other control
//! character below 0x20 becomes `\u00` plus two lowercase hex digits, and all
//! remaining characters stand for themselves.

use vstd::prelude::*;
use vstd::string::StringExecFns;

verus! {

/// The lowercase hexadecimal digit for a value below 16.
pub open spec fn hex_digit(n: int) -> char {
    if n == 0 {
        '0'
    } else if n == 1 {
        '1'
    } else if n == 2 {
        '2'
    } else if n == 3 {
        '3'
    } else if n == 4 {
        '4'
    } else if n == 5 {
        '5'
    } else if n == 6 {
        '6'
    } else if n == 7 {
        '7'
    } else if n == 8 {
        '8'
    } else if n == 9 {
        '9'
    } else if n == 10 {
        'a'
    } else if n == 11 {
        'b'
    } else if n == 12 {
        'c'
    } else if n == 13 {
        'd'
    } else if n == 14 {
        'e'
    } else {
        'f'
    }
}

/// The escape sequence standing for one character inside a JSON string.
pub open spec fn escape_char(c: char) -> Seq<char> {
    if c == '"' {
        seq!['\\', '"']
    } else if c == '\\' {
        seq!['\\', '\\']
    } else if c == '\u{8}' {
        seq!['\\', 'b']
    } else if c == '\t' {
        seq!['\\', 't']
    } else if c == '\n' {
        seq!['\\', 'n']
    } else if c == '\u{c}' {
        seq!['\\', 'f']
    } else if c == '\r' {
        seq!['\\', 'r']
    } else if (c as u32) < 0x20 {
        seq!['\\', 'u', '0', '0', hex_digit(((c as u32) as int) / 16), hex_digit(((c as u32) as int) % 16)]
    } else {
        seq![c]
    }
}

/// The body of a JSON string: every character escaped, in order.
pub open spec fn escape(s: Seq<char>) -> Seq<char>
    decreases s.len(),
{
    if s.len() == 0 {
        Seq::empty()
    } else {
        escape_char(s[0]) + escape(s.drop_first())
    }
}

/// The text that opens a record and the key's string: `{"key":"`.
pub open spec fn key_prefix() -> Seq<char> {
    seq!['{', '"', 'k', 'e', 'y', '"', ':', '"']
}

/// The text between the two escaped strings of a record: `","value":"`.
pub open spec fn value_mid() -> Seq<char> {
    seq!['"', ',', '"', 'v', 'a', 'l', 'u', 'e', '"', ':', '"']
}

/// The text that closes a record: `"}`.
pub open spec fn record_end() -> Seq<char> {
    seq!['"', '}']
}

/// The JSON object for one (key, value) pair.
pub open spec fn record_text(p: (Seq<char>, Seq<char>)) -> Seq<char> {
    key_prefix() + escape(p.0) + value_mid() + escape(p.1) + record_end()
}

/// The comma-separated records of a pair list, without the array brackets.
pub open spec fn records_text(ps: Seq<(Seq<char>, Seq<char>)>) -> Seq<char>
    decreases ps.len(),
{
    if ps.len() == 0 {
        Seq::empty()
    } else if ps.len() == 1 {
        record_text(ps[0])
    } else {
        record_text(ps[0]) + seq![','] + records_text(ps.drop_first())
    }
}

/// The whole export text of a pair list: the records inside `[` and `]`.
pub open spec fn json_of(ps: Seq<(Seq<char>, Seq<char>)>) -> Seq<char> {
    seq!['['] + records_text(ps) + seq![']']
}

/// Escaping a string one character longer appends that character's escape.
pub proof fn lemma_escape_snoc(s: Seq<char>, c: char)
    ensures
        escape(s.push(c)) == escape(s) + escape_char(c),
    decreases s.len(),
{
    if s.len() == 0 {
        assert(s.push(c)[0] == c);
        assert(s.push(c).drop_first() =~= Seq::<char>::empty());
        assert(escape(s.push(c)) == escape_char(c) + escape(s.push(c).drop_first()));
        assert(escape(s.push(c).drop_first()) == Seq::<char>::empty());
        assert(escape_char(c) + Seq::<char>::empty() =~= Seq::<char>::empty() + escape_char(c));
    } else {
        assert(s.push(c)[0] == s[0]);
        assert(s.push(c).drop_first() =~= s.drop_first().push(c));
        lemma_escape_snoc(s.drop_first(), c);
        assert(escape(s.push(c)) == escape_char(s[0]) + escape(s.drop_first().push(c)));
        assert(escape(s.push(c)) == escape_char(s[0]) + (escape(s.drop_first()) + escape_char(c)));
        assert(escape(s) == escape_char(s[0]) + escape(s.drop_first()));
        assert(escape_char(s[0]) + (escape(s.drop_first()) + escape_char(c)) =~= (escape_char(
            s[0],
        ) + escape(s.drop_first())) + escape_char(c));
    }
}

/// Appending a pair to the list appends its record, behind a comma unless it
/// is the first.
pub proof fn lemma_records_snoc(ps: Seq<(Seq<char>, Seq<char>)>, p: (Seq<char>, Seq<char>))
    ensures
        records_text(ps.push(p)) == if ps.len() == 0 {
            record_text(p)
        } else {
            records_text(ps) + seq![','] + record_text(p)
        },
    decreases ps.len(),
{
    if ps.len() == 0 {
        assert(ps.push(p) =~= seq![p]);
    } else if ps.len() == 1 {
        assert(ps.push(p)[0] == ps[0]);
        assert(ps.push(p).drop_first() =~= seq![p]);
        assert(records_text(seq![p]) == record_text(p));
        assert(records_text(ps.push(p)) == record_text(ps[0]) + seq![','] + record_text(p));
        assert(records_text(ps) == record_text(ps[0]));
    } else {
        assert(ps.push(p)[0] == ps[0]);
        assert(ps.push(p).drop_first() =~= ps.drop_first().push(p));
        lemma_records_snoc(ps.drop_first(), p);
        assert(records_text(ps.push(p)) == record_text(ps[0]) + seq![','] + records_text(
            ps.drop_first().push(p),
        ));
        assert(records_text(ps.push(p)) == record_text(ps[0]) + seq![','] + (records_text(
            ps.drop_first(),
        ) + seq![','] + record_text(p)));
        assert(records_text(ps) == record_text(ps[0]) + seq![','] + records_text(ps.drop_first()));
        assert(record_text(ps[0]) + seq![','] + (records_text(ps.drop_first()) + seq![',']
            + record_text(p)) =~= (record_text(ps[0]) + seq![','] + records_text(ps.drop_first()))
            + seq![','] + record_text(p));
    }
}

/// Relies on `String::push`: appends exactly the one character to the string.
#[verifier::external_body]
pub(crate) fn push_char(out: &mut String, c: char)
    ensures
        final(out)@ == old(out)@.push(c),
{
    out.push(c);
}

/// The lowercase hexadecimal digit for a value below 16.
fn hex_char(n: u32) -> (c: char)
    requires
        n < 16,
    ensures
        c == hex_digit(n as int),
{
    if n == 0 {
        '0'
    } else if n == 1 {
        '1'
    } else if n == 2 {
        '2'
    } else if n == 3 {
        '3'
    } else if n == 4 {
        '4'
    } else if n == 5 {
        '5'
    } else if n == 6 {
        '6'
    } else if n == 7 {
        '7'
    } else if n == 8 {
        '8'
    } else if n == 9 {
        '9'
    } else if n == 10 {
        'a'
    } else if n == 11 {
        'b'
    } else if n == 12 {
        'c'
    } else if n == 13 {
        'd'
    } else if n == 14 {
        'e'
    } else {
        'f'
    }
}

/// Appends the escape sequence of one character.
pub(crate) fn push_escaped_char(out: &mut String, c: char)
    ensures
        final(out)@ == old(out)@ + escape_char(c),
{
    if c == '"' {
        push_char(out, '\\');
        push_char(out, '"');
    } else if c == '\\' {
        push_char(out, '\\');
        push_char(out, '\\');
    } else if c == '\u{8}' {
        push_char(out, '\\');
        push_char(out, 'b');
    } else if c == '\t' {
        push_char(out, '\\');
        push_char(out, 't');
    } else if c == '\n' {
        push_char(out, '\\');
        push_char(out, 'n');
    } else if c == '\u{c}' {
        push_char(out, '\\');
        push_char(out, 'f');
    } else if c == '\r' {
        push_char(out, '\\');
        push_char(out, 'r');
    } else {
        let n = c as u32;
        if n < 0x20 {
            push_char(out, '\\');
            push_char(out, 'u');
            push_char(out, '0');
            push_char(out, '0');
            push_char(out, hex_char(n / 16));
            push_char(out, hex_char(n % 16));
        } else {
            push_char(out, c);
        }
    }
    proof {
        assert(out@ =~= old(out)@ + escape_char(c));
    }
}

/// Appends the escaped body of a whole string.
pub(crate) fn push_escaped(out: &mut String, s: &str)
    ensures
        final(out)@ == old(out)@ + escape(s@),
{
    let n = s.unicode_len();
    let mut i: usize = 0;
    while i < n
        invariant
            i <= n,
            n == s@.len(),
            out@ == old(out)@ + escape(s@.take(i as int)),
        decreases n - i,
    {
        let c = s.get_char(i);
        push_escaped_char(out, c);
        proof {
            lemma_escape_snoc(s@.take(i as int), c);
            assert(s@.take(i as int + 1) =~= s@.take(i as int).push(c));
            assert(out@ =~= old(out)@ + escape(s@.take(i as int + 1)));
        }
        i = i + 1;
    }
    proof {
        assert(s@.take(n as int) =~= s@);
    }
}

/// Appends the record opener `{"key":"`.
pub(crate) fn push_key_prefix(out: &mut String)
    ensures
        final(out)@ == old(out)@ + key_prefix(),
{
    out.append("{\"key\":\"");
    proof {
        reveal_strlit("{\"key\":\"");
        assert(("{\"key\":\"")@ =~= key_prefix());
    }
}

/// Appends the text between the two strings of a record, `","value":"`.
pub(crate) fn push_value_mid(out: &mut String)
    ensures
        final(out)@ == old(out)@ + value_mid(),
{
    out.append("\",\"value\":\"");
    proof {
        reveal_strlit("\",\"value\":\"");
        assert(("\",\"value\":\"")@ =~= value_mid());
    }
}

/// Appends the record closer `"}`.
pub(crate) fn push_record_end(out: &mut String)
    ensures
        final(out)@ == old(out)@ + record_end(),
{
    out.append("\"}");
    proof {
        reveal_strlit("\"}");
        assert(("\"}")@ =~= record_end());
    }
}

} // verus!
