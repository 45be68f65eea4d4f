//! The journal file's line format: one JSON object per record, on one line,
//! with the entry text and its submission time as JSON strings. Control
//! characters, quotes and backslashes in the text are escaped, so a record
//! never spans more than one line of the file.

use vstd::prelude::*;
use vstd::string::StrSliceExecFns;
use vstd::string::StringExecFns;

verus! {

/// The lowercase hexadecimal digit for a value below sixteen.
pub open spec fn hex_digit(n: int) -> char {
    if n == 0 {
        '0'
    } else if n == 1 {
        '1'
    } else if n == 2 {
        '2'
    } else if n == 3 {
        '3'
    } else if n == 4 {
        '4'
    } else if n == 5 {
        '5'
    } else if n == 6 {
        '6'
    } else if n == 7 {
        '7'
    } else if n == 8 {
        '8'
    } else if n == 9 {
        '9'
    } else if n == 10 {
        'a'
    } else if n == 11 {
        'b'
    } else if n == 12 {
        'c'
    } else if n == 13 {
        'd'
    } else if n == 14 {
        'e'
    } else {
        'f'
    }
}

/// How one character appears inside a JSON string: quotes, backslashes and
/// control characters are escaped, every other character stands for itself.
pub open spec fn escape_char(c: char) -> Seq<char> {
    if c == '"' {
        seq!['\\', '"']
    } else if c == '\\' {
        seq!['\\', '\\']
    } else if c == '\u{8}' {
        seq!['\\', 'b']
    } else if c == '\t' {
        seq!['\\', 't']
    } else if c == '\n' {
        seq!['\\', 'n']
    } else if c == '\u{c}' {
        seq!['\\', 'f']
    } else if c == '\r' {
        seq!['\\', 'r']
    } else if (c as u32) < 0x20 {
        seq!['\\', 'u', '0', '0', hex_digit(c as u32 as int / 16), hex_digit(c as u32 as int % 16)]
    } else {
        seq![c]
    }
}

/// A whole text escaped character by character.
pub open spec fn escape_string(s: Seq<char>) -> Seq<char>
    decreases s.len(),
{
    if s.len() == 0 {
        Seq::empty()
    } else {
        escape_char(s[0]) + escape_string(s.drop_first())
    }
}

/// An escaped text between its two quotes.
pub open spec fn quoted(s: Seq<char>) -> Seq<char> {
    seq!['"'] + escape_string(s) + seq!['"']
}

/// The one line a record with the given text and submission time contributes
/// to the journal file (without the terminating newline).
pub open spec fn journal_line(text: Seq<char>, time: Seq<char>) -> Seq<char> {
    "{\"text\":"@ + quoted(text) + ",\"time_submitted\":"@ + quoted(time) + "}"@
}

/// Whether a character is one of the sixteen lowercase hexadecimal digits.
pub open spec fn is_hex_digit(c: char) -> bool {
    ('0' as int <= c as int && c as int <= '9' as int) || ('a' as int <= c as int && c as int
        <= 'f' as int)
}

/// The value of a lowercase hexadecimal digit.
pub open spec fn hex_val(c: char) -> int {
    if '0' as int <= c as int && c as int <= '9' as int {
        c as int - '0' as int
    } else {
        c as int - 'a' as int + 10
    }
}

/// The character a two-character escape stands for, if it is one.
pub open spec fn unescape_simple(e: char) -> Option<char> {
    if e == '"' {
        Some('"')
    } else if e == '\\' {
        Some('\\')
    } else if e == 'b' {
        Some('\u{8}')
    } else if e == 't' {
        Some('\t')
    } else if e == 'n' {
        Some('\n')
    } else if e == 'f' {
        Some('\u{c}')
    } else if e == 'r' {
        Some('\r')
    } else {
        None
    }
}

/// Reads a JSON string body (everything after the opening quote) back into
/// the text it encodes: the decoded text, and what follows the closing quote.
/// Escapes are undone; `\u` escapes are accepted in the two-digit form this
/// encoder writes.
pub open spec fn parse_string_body(s: Seq<char>) -> Option<(Seq<char>, Seq<char>)>
    decreases s.len(),
{
    if s.len() == 0 {
        None
    } else if s[0] == '"' {
        Some((Seq::empty(), s.drop_first()))
    } else if s[0] == '\\' {
        if s.len() < 2 {
            None
        } else if s[1] == 'u' {
            if s.len() < 6 {
                None
            } else if s[2] == '0' && s[3] == '0' && is_hex_digit(s[4]) && is_hex_digit(s[5]) {
                match parse_string_body(s.skip(6)) {
                    Some(p) => Some(
                        (seq![((hex_val(s[4]) * 16 + hex_val(s[5])) as u32) as char] + p.0, p.1),
                    ),
                    None => None,
                }
            } else {
                None
            }
        } else {
            match unescape_simple(s[1]) {
                Some(c) => match parse_string_body(s.skip(2)) {
                    Some(p) => Some((seq![c] + p.0, p.1)),
                    None => None,
                },
                None => None,
            }
        }
    } else {
        match parse_string_body(s.drop_first()) {
            Some(p) => Some((seq![s[0]] + p.0, p.1)),
            None => None,
        }
    }
}

/// Reads a whole journal line back into its text and time fields.
pub open spec fn parse_journal_line(s: Seq<char>) -> Option<(Seq<char>, Seq<char>)> {
    let text_key = "{\"text\":\""@;
    let time_key = ",\"time_submitted\":\""@;
    if s.len() >= text_key.len() && s.take(text_key.len() as int) == text_key {
        match parse_string_body(s.skip(text_key.len() as int)) {
            Some(q1) => {
                if q1.1.len() >= time_key.len() && q1.1.take(time_key.len() as int) == time_key {
                    match parse_string_body(q1.1.skip(time_key.len() as int)) {
                        Some(q2) => if q2.1 == "}"@ {
                            Some((q1.0, q2.0))
                        } else {
                            None
                        },
                        None => None,
                    }
                } else {
                    None
                }
            },
            None => None,
        }
    } else {
        None
    }
}

/// A text with no newline in it occupies a single line of the journal file.
pub open spec fn single_line(s: Seq<char>) -> bool {
    forall|i: int| 0 <= i < s.len() ==> s[i] != '\n'
}

/// Escaping a text one character longer appends that character's escape.
pub proof fn lemma_escape_string_snoc(s: Seq<char>, c: char)
    ensures
        escape_string(s.push(c)) == escape_string(s) + escape_char(c),
    decreases s.len(),
{
    if s.len() == 0 {
        assert(s.push(c)[0] == c);
        assert(s.push(c).drop_first() =~= Seq::<char>::empty());
        assert(escape_string(s.push(c)) == escape_char(c) + escape_string(
            Seq::<char>::empty(),
        ));
        assert(escape_string(s.push(c)) =~= escape_string(s) + escape_char(c));
    } else {
        assert(s.push(c).drop_first() =~= s.drop_first().push(c));
        lemma_escape_string_snoc(s.drop_first(), c);
        assert(escape_string(s.push(c)) =~= escape_string(s) + escape_char(c));
    }
}

/// Relies on `String::push` of std: appends the one character at the end.
#[verifier::external_body]
fn push_char(out: &mut String, c: char)
    ensures
        final(out)@ == old(out)@ + seq![c],
{
    out.push(c);
}

/// The lowercase hexadecimal digit for a value below sixteen.
fn hex_digit_exec(n: u32) -> (c: char)
    requires
        n < 16,
    ensures
        c == hex_digit(n as int),
{
    if n == 0 {
        '0'
    } else if n == 1 {
        '1'
    } else if n == 2 {
        '2'
    } else if n == 3 {
        '3'
    } else if n == 4 {
        '4'
    } else if n == 5 {
        '5'
    } else if n == 6 {
        '6'
    } else if n == 7 {
        '7'
    } else if n == 8 {
        '8'
    } else if n == 9 {
        '9'
    } else if n == 10 {
        'a'
    } else if n == 11 {
        'b'
    } else if n == 12 {
        'c'
    } else if n == 13 {
        'd'
    } else if n == 14 {
        'e'
    } else {
        'f'
    }
}

/// Appends one character's escape to the output.
fn push_escaped_char(out: &mut String, c: char)
    ensures
        final(out)@ == old(out)@ + escape_char(c),
{
    if c == '"' {
        out.append("\\\"");
        proof {
            reveal_strlit("\\\"");
            assert(final(out)@ =~= old(out)@ + escape_char(c));
        }
    } else if c == '\\' {
        out.append("\\\\");
        proof {
            reveal_strlit("\\\\");
            assert(final(out)@ =~= old(out)@ + escape_char(c));
        }
    } else if c == '\u{8}' {
        out.append("\\b");
        proof {
            reveal_strlit("\\b");
            assert(final(out)@ =~= old(out)@ + escape_char(c));
        }
    } else if c == '\t' {
        out.append("\\t");
        proof {
            reveal_strlit("\\t");
            assert(final(out)@ =~= old(out)@ + escape_char(c));
        }
    } else if c == '\n' {
        out.append("\\n");
        proof {
            reveal_strlit("\\n");
            assert(final(out)@ =~= old(out)@ + escape_char(c));
        }
    } else if c == '\u{c}' {
        out.append("\\f");
        proof {
            reveal_strlit("\\f");
            assert(final(out)@ =~= old(out)@ + escape_char(c));
        }
    } else if c == '\r' {
        out.append("\\r");
        proof {
            reveal_strlit("\\r");
            assert(final(out)@ =~= old(out)@ + escape_char(c));
        }
    } else {
        let u = c as u32;
        if u < 0x20 {
            out.append("\\u00");
            push_char(out, hex_digit_exec(u / 16));
            push_char(out, hex_digit_exec(u % 16));
            proof {
                reveal_strlit("\\u00");
                assert(final(out)@ =~= old(out)@ + escape_char(c));
            }
        } else {
            push_char(out, c);
            proof {
                assert(final(out)@ =~= old(out)@ + escape_char(c));
            }
        }
    }
}

/// Appends the whole escape of a text to the output.
fn append_escaped(out: &mut String, s: &str)
    ensures
        final(out)@ == old(out)@ + escape_string(s@),
{
    let ghost start = out@;
    let n = s.unicode_len();
    let mut i: usize = 0;
    proof {
        assert(s@.take(0) =~= Seq::<char>::empty());
        assert(out@ =~= start + escape_string(s@.take(0)));
    }
    while i < n
        invariant
            n == s@.len(),
            i <= n,
            out@ == start + escape_string(s@.take(i as int)),
        decreases n - i,
    {
        let c = s.get_char(i);
        push_escaped_char(out, c);
        proof {
            lemma_escape_string_snoc(s@.take(i as int), s@[i as int]);
            assert(s@.take(i + 1) =~= s@.take(i as int).push(s@[i as int]));
        }
        i = i + 1;
    }
    proof {
        assert(s@.take(n as int) =~= s@);
    }
}

/// Builds the journal line for a record's text and submission time: a compact
/// JSON object with the two fields, both escaped.
pub fn encode_journal_line(text: &str, time: &str) -> (r: String)
    ensures
        r@ == journal_line(text@, time@),
{
    let mut out = String::new();
    out.append("{\"text\":\"");
    append_escaped(&mut out, text);
    out.append("\",\"time_submitted\":\"");
    append_escaped(&mut out, time);
    out.append("\"}");
    proof {
        reveal_strlit("{\"text\":\"");
        reveal_strlit("{\"text\":");
        reveal_strlit("\",\"time_submitted\":\"");
        reveal_strlit(",\"time_submitted\":");
        reveal_strlit("\"}");
        reveal_strlit("}");
        assert(out@ =~= journal_line(text@, time@));
    }
    out
}

/// Whether two strings hold the same characters.
pub fn str_eq(a: &str, b: &str) -> (r: bool)
    ensures
        r == (a@ == b@),
{
    let na = a.unicode_len();
    let nb = b.unicode_len();
    if na != nb {
        return false;
    }
    let mut i: usize = 0;
    while i < na
        invariant
            na == a@.len(),
            na == b@.len(),
            i <= na,
            forall|j: int| 0 <= j < i ==> a@[j] == b@[j],
        decreases na - i,
    {
        if a.get_char(i) != b.get_char(i) {
            return false;
        }
        i = i + 1;
    }
    proof {
        assert(a@ =~= b@);
    }
    true
}

/// The value of a hexadecimal digit character, where it is one.
fn hex_val_exec(c: char) -> (r: Option<u32>)
    ensures
        r is Some <==> is_hex_digit(c),
        r is Some ==> r->0 == hex_val(c) && r->0 < 16,
{
    let u = c as u32;
    if u >= 0x30 && u <= 0x39 {
        Some(u - 0x30)
    } else if u >= 0x61 && u <= 0x66 {
        Some(u - 0x61 + 10)
    } else {
        None
    }
}

/// The character a two-character escape stands for, if it is one.
fn unescape_simple_exec(e: char) -> (r: Option<char>)
    ensures
        r == unescape_simple(e),
{
    if e == '"' {
        Some('"')
    } else if e == '\\' {
        Some('\\')
    } else if e == 'b' {
        Some('\u{8}')
    } else if e == 't' {
        Some('\t')
    } else if e == 'n' {
        Some('\n')
    } else if e == 'f' {
        Some('\u{c}')
    } else if e == 'r' {
        Some('\r')
    } else {
        None
    }
}

/// A parse result with a decoded prefix put back in front of its text.
spec fn prepend_parsed(p: Seq<char>, o: Option<(Seq<char>, Seq<char>)>) -> Option<
    (Seq<char>, Seq<char>),
> {
    match o {
        Some(q) => Some((p + q.0, q.1)),
        None => None,
    }
}

/// Reads a JSON string body out of `line`, from `start` (just after the
/// opening quote) to the closing quote: the decoded text and the position
/// just after the closing quote.
fn decode_string_body(line: &str, start: usize) -> (r: Option<(String, usize)>)
    requires
        start <= line@.len(),
    ensures
        match (r, parse_string_body(line@.skip(start as int))) {
            (Some(p), Some(q)) => p.0@ == q.0 && p.1 <= line@.len() && line@.skip(p.1 as int)
                == q.1,
            (None, None) => true,
            _ => false,
        },
{
    let n = line.unicode_len();
    let mut out = String::new();
    let mut i: usize = start;
    while i < n
        invariant
            n == line@.len(),
            start <= i <= n,
            prepend_parsed(out@, parse_string_body(line@.skip(i as int))) == parse_string_body(
                line@.skip(start as int),
            ),
        decreases n - i,
    {
        let c = line.get_char(i);
        proof {
            assert(line@.skip(i as int)[0] == line@[i as int]);
        }
        if c == '"' {
            proof {
                assert(line@.skip(i as int).drop_first() =~= line@.skip(i as int + 1));
                assert(out@ + Seq::<char>::empty() =~= out@);
            }
            return Some((out, i + 1));
        } else if c == '\\' {
            if n - i < 2 {
                return None;
            }
            let e = line.get_char(i + 1);
            proof {
                assert(line@.skip(i as int)[1] == line@[i as int + 1]);
            }
            if e == 'u' {
                if n - i < 6 {
                    return None;
                }
                proof {
                    assert(line@.skip(i as int)[2] == line@[i as int + 2]);
                    assert(line@.skip(i as int)[3] == line@[i as int + 3]);
                    assert(line@.skip(i as int)[4] == line@[i as int + 4]);
                    assert(line@.skip(i as int)[5] == line@[i as int + 5]);
                }
                if line.get_char(i + 2) != '0' || line.get_char(i + 3) != '0' {
                    return None;
                }
                let h1 = match hex_val_exec(line.get_char(i + 4)) {
                    Some(v) => v,
                    None => {
                        return None;
                    },
                };
                let h2 = match hex_val_exec(line.get_char(i + 5)) {
                    Some(v) => v,
                    None => {
                        return None;
                    },
                };
                let v: u32 = h1 * 16 + h2;
                let decoded = (v as u8) as char;
                proof {
                    assert(v < 256);
                    assert(decoded == ((hex_val(line@[i as int + 4]) * 16 + hex_val(
                        line@[i as int + 5],
                    )) as u32) as char);
                }
                let ghost out_before = out@;
                push_char(&mut out, decoded);
                proof {
                    assert(line@.skip(i as int).skip(6) =~= line@.skip(i as int + 6));
                    let rest = parse_string_body(line@.skip(i as int + 6));
                    if rest is Some {
                        let q = rest->0;
                        assert(out_before + (seq![decoded] + q.0) =~= (out_before + seq![decoded])
                            + q.0);
                        assert(prepend_parsed(out@, rest) == parse_string_body(
                            line@.skip(start as int),
                        ));
                    }
                }
                i = i + 6;
            } else {
                let decoded = match unescape_simple_exec(e) {
                    Some(d) => d,
                    None => {
                        return None;
                    },
                };
                let ghost out_before = out@;
                push_char(&mut out, decoded);
                proof {
                    assert(line@.skip(i as int).skip(2) =~= line@.skip(i as int + 2));
                    let rest = parse_string_body(line@.skip(i as int + 2));
                    if rest is Some {
                        let q = rest->0;
                        assert(out_before + (seq![decoded] + q.0) =~= (out_before + seq![decoded])
                            + q.0);
                        assert(prepend_parsed(out@, rest) == parse_string_body(
                            line@.skip(start as int),
                        ));
                    }
                }
                i = i + 2;
            }
        } else {
            let ghost out_before = out@;
            push_char(&mut out, c);
            proof {
                assert(line@.skip(i as int).drop_first() =~= line@.skip(i as int + 1));
                let rest = parse_string_body(line@.skip(i as int + 1));
                if rest is Some {
                    let q = rest->0;
                    assert(out_before + (seq![c] + q.0) =~= (out_before + seq![c]) + q.0);
                    assert(prepend_parsed(out@, rest) == parse_string_body(
                        line@.skip(start as int),
                    ));
                }
            }
            i = i + 1;
        }
    }
    proof {
        assert(line@.skip(i as int).len() == 0);
    }
    None
}

/// Reads a journal line back into its text and time fields: the inverse of
/// `encode_journal_line` on every line it writes, and `None` on any line no
/// record encodes to.
pub fn decode_journal_line(line: &str) -> (r: Option<(String, String)>)
    ensures
        match (r, parse_journal_line(line@)) {
            (Some(p), Some(q)) => p.0@ == q.0 && p.1@ == q.1,
            (None, None) => true,
            _ => false,
        },
{
    proof {
        reveal_strlit("{\"text\":\"");
        reveal_strlit(",\"time_submitted\":\"");
        reveal_strlit("}");
    }
    let n = line.unicode_len();
    if n < 9 {
        return None;
    }
    let head = line.substring_char(0, 9);
    if !str_eq(head, "{\"text\":\"") {
        proof {
            reveal_strlit("{\"text\":\"");
            assert(line@.take(9) =~= line@.subrange(0, 9));
        }
        return None;
    }
    proof {
        reveal_strlit("{\"text\":\"");
        assert(line@.take(9) =~= line@.subrange(0, 9));
    }
    let (text, after_text) = match decode_string_body(line, 9) {
        Some(p) => p,
        None => {
            return None;
        },
    };
    if n - after_text < 19 {
        return None;
    }
    let sep = line.substring_char(after_text, after_text + 19);
    proof {
        assert(line@.skip(after_text as int).take(19) =~= line@.subrange(
            after_text as int,
            after_text as int + 19,
        ));
    }
    if !str_eq(sep, ",\"time_submitted\":\"") {
        return None;
    }
    proof {
        assert(line@.skip(after_text as int).skip(19) =~= line@.skip(after_text as int + 19));
    }
    let (time, after_time) = match decode_string_body(line, after_text + 19) {
        Some(p) => p,
        None => {
            return None;
        },
    };
    if n - after_time == 1 && line.get_char(after_time) == '}' {
        proof {
            reveal_strlit("}");
            assert(line@.skip(after_time as int)[0] == line@[after_time as int]);
            assert(line@.skip(after_time as int) =~= "}"@);
        }
        Some((text, time))
    } else {
        proof {
            reveal_strlit("}");
            if line@.skip(after_time as int) == "}"@ {
                assert(line@.skip(after_time as int).len() == 1);
                assert(line@.skip(after_time as int)[0] == line@[after_time as int]);
                assert(line@[after_time as int] == '}');
            }
        }
        None
    }
}

/// A hexadecimal digit character carries back the value it was written from.
proof fn lemma_hex_digit_val(n: int)
    requires
        0 <= n < 16,
    ensures
        is_hex_digit(hex_digit(n)),
        hex_val(hex_digit(n)) == n,
{
}

/// Undoing the escapes of a text, up to its closing quote, gives the text
/// back exactly, whatever follows the quote.
pub proof fn lemma_parse_escaped(t: Seq<char>, rest: Seq<char>)
    ensures
        parse_string_body(escape_string(t) + seq!['"'] + rest) == Some((t, rest)),
    decreases t.len(),
{
    let s = escape_string(t) + seq!['"'] + rest;
    if t.len() == 0 {
        assert(escape_string(t) =~= Seq::<char>::empty());
        assert(s =~= seq!['"'] + rest);
        assert(s[0] == '"');
        assert(s.drop_first() =~= rest);
    } else {
        let c = t[0];
        let e = escape_char(c);
        let t1 = t.drop_first();
        lemma_parse_escaped(t1, rest);
        let s1 = escape_string(t1) + seq!['"'] + rest;
        assert(escape_string(t) == e + escape_string(t1));
        assert(s =~= e + s1);
        assert(seq![c] + t1 =~= t);
        if c == '"' || c == '\\' || c == '\u{8}' || c == '\t' || c == '\n' || c == '\u{c}' || c
            == '\r' {
            assert(e.len() == 2 && e[0] == '\\' && unescape_simple(e[1]) == Some(c));
            assert(s[0] == '\\' && s[1] == e[1]);
            assert(e[1] != 'u');
            assert(s.skip(2) =~= s1);
            assert(parse_string_body(s) == Some((seq![c] + t1, rest)));
        } else if (c as u32) < 0x20 {
            let u = c as u32 as int;
            let h1 = hex_digit(u / 16);
            let h2 = hex_digit(u % 16);
            lemma_hex_digit_val(u / 16);
            lemma_hex_digit_val(u % 16);
            assert(e =~= seq!['\\', 'u', '0', '0', h1, h2]);
            assert(s[0] == '\\' && s[1] == 'u' && s[2] == '0' && s[3] == '0' && s[4] == h1 && s[5]
                == h2);
            assert(s.skip(6) =~= s1);
            assert(hex_val(s[4]) * 16 + hex_val(s[5]) == u);
            assert((u as u32) == c as u32);
            vstd::utf8::char_u32_cast(c, c as u32);
            assert(((hex_val(s[4]) * 16 + hex_val(s[5])) as u32) as char == c);
            assert(parse_string_body(s) == Some((seq![c] + t1, rest)));
        } else {
            assert(e =~= seq![c]);
            assert(s[0] == c);
            assert(c != '"' && c != '\\');
            assert(s.drop_first() =~= s1);
            assert(parse_string_body(s) == Some((seq![c] + t1, rest)));
        }
    }
}

/// Round trip: the journal line built from any text and time parses back to
/// exactly that text and that time.
pub proof fn lemma_journal_line_round_trip(text: Seq<char>, time: Seq<char>)
    ensures
        parse_journal_line(journal_line(text, time)) == Some((text, time)),
{
    reveal_strlit("{\"text\":\"");
    reveal_strlit("{\"text\":");
    reveal_strlit(",\"time_submitted\":\"");
    reveal_strlit(",\"time_submitted\":");
    reveal_strlit("}");
    let text_key = "{\"text\":\""@;
    let time_key = ",\"time_submitted\":\""@;
    let s = journal_line(text, time);
    let rest1 =",\"time_submitted\":"@ + quoted(time) + "}"@;
    let rest2 = "}"@;
    assert(s.len() >= text_key.len());
    assert(s.take(text_key.len() as int) =~= text_key);
    assert(s.skip(text_key.len() as int) =~= escape_string(text) + seq!['"'] + rest1);
    lemma_parse_escaped(text, rest1);
    assert(parse_string_body(s.skip(text_key.len() as int)) == Some((text, rest1)));
    assert(rest1.len() >= time_key.len());
    assert(rest1.take(time_key.len() as int) =~= time_key);
    assert(rest1.skip(time_key.len() as int) =~= escape_string(time) + seq!['"'] + rest2);
    lemma_parse_escaped(time, rest2);
    assert(parse_string_body(rest1.skip(time_key.len() as int)) == Some((time, rest2)));
}

/// No character's escape holds a raw newline.
proof fn lemma_escape_char_single_line(c: char)
    ensures
        single_line(escape_char(c)),
{
    if c == '"' || c == '\\' || c == '\u{8}' || c == '\t' || c == '\n' || c == '\u{c}' || c
        == '\r' {
    } else if (c as u32) < 0x20 {
        let u = c as u32 as int;
        lemma_hex_digit_val(u / 16);
        lemma_hex_digit_val(u % 16);
        assert(hex_digit(u / 16) != '\n' && hex_digit(u % 16) != '\n');
    } else {
        assert(c != '\n');
    }
}

/// An escaped text holds no raw newline, whatever the text held.
proof fn lemma_escape_string_single_line(s: Seq<char>)
    ensures
        single_line(escape_string(s)),
    decreases s.len(),
{
    if s.len() == 0 {
    } else {
        lemma_escape_char_single_line(s[0]);
        lemma_escape_string_single_line(s.drop_first());
    }
}

/// A journal line never holds a newline: each record occupies exactly one
/// line of the journal file.
pub proof fn lemma_journal_line_single_line(text: Seq<char>, time: Seq<char>)
    ensures
        single_line(journal_line(text, time)),
{
    reveal_strlit("{\"text\":");
    reveal_strlit(",\"time_submitted\":");
    reveal_strlit("}");
    lemma_escape_string_single_line(text);
    lemma_escape_string_single_line(time);
}

} // verus!
