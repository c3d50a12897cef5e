//! Character-level JSON building blocks shared by the delta extractor and
//! the settings codec: whitespace skipping, string escaping and its inverse,
//! and an index-based string parser whose specification doubles as the
//! grammar.

use vstd::prelude::*;
use vstd::string::StrSliceExecFns;
use vstd::utf8::char_u32_cast;
use crate::text::{char_of_scalar, push_char};

verus! {

/// JSON insignificant whitespace.
pub open spec fn is_ws(c: char) -> bool {
    c == ' ' || c == '\t' || c == '\n' || c == '\r'
}

/// The first index at `i` or later that does not hold whitespace.
pub open spec fn skip_ws(s: Seq<char>, i: int) -> int
    decreases s.len() - i,
{
    if 0 <= i && i < s.len() && is_ws(s[i]) {
        skip_ws(s, i + 1)
    } else {
        i
    }
}

/// `skip_ws` never moves backwards and never past the end.
pub proof fn lemma_skip_ws_bounds(s: Seq<char>, i: int)
    requires
        0 <= i <= s.len(),
    ensures
        i <= skip_ws(s, i) <= s.len(),
    decreases s.len() - i,
{
    if i < s.len() && is_ws(s[i]) {
        lemma_skip_ws_bounds(s, i + 1);
    }
}

/// Executable counterpart of `skip_ws`.
pub fn ws_end(s: &Vec<char>, i: usize) -> (j: usize)
    requires
        i <= s@.len(),
    ensures
        j as int == skip_ws(s@, i as int),
        i <= j <= s@.len(),
{
    let n = s.len();
    let mut j: usize = i;
    while j < n && (s[j] == ' ' || s[j] == '\t' || s[j] == '\n' || s[j] == '\r')
        invariant
            i <= j <= n,
            n == s@.len(),
            skip_ws(s@, i as int) == skip_ws(s@, j as int),
        decreases n - j,
    {
        j = j + 1;
    }
    j
}

/// The value of one hexadecimal digit, or a negative number for any other
/// character.
pub open spec fn hex_digit_val(c: char) -> int {
    if c == '0' { 0 } else if c == '1' { 1 } else if c == '2' { 2 } else if c == '3' { 3 }
    else if c == '4' { 4 } else if c == '5' { 5 } else if c == '6' { 6 } else if c == '7' { 7 }
    else if c == '8' { 8 } else if c == '9' { 9 }
    else if c == 'a' || c == 'A' { 10 } else if c == 'b' || c == 'B' { 11 }
    else if c == 'c' || c == 'C' { 12 } else if c == 'd' || c == 'D' { 13 }
    else if c == 'e' || c == 'E' { 14 } else if c == 'f' || c == 'F' { 15 }
    else { -1 }
}

/// The lower-case digit for a value below sixteen.
pub open spec fn hexdig(v: int) -> char {
    if v == 0 { '0' } else if v == 1 { '1' } else if v == 2 { '2' } else if v == 3 { '3' }
    else if v == 4 { '4' } else if v == 5 { '5' } else if v == 6 { '6' } else if v == 7 { '7' }
    else if v == 8 { '8' } else if v == 9 { '9' } else if v == 10 { 'a' } else if v == 11 { 'b' }
    else if v == 12 { 'c' } else if v == 13 { 'd' } else if v == 14 { 'e' } else if v == 15 { 'f' }
    else { '0' }
}

/// Reading back an emitted digit gives the value it was made from.
pub proof fn lemma_hexdig_roundtrip(v: int)
    requires
        0 <= v < 16,
    ensures
        hex_digit_val(hexdig(v)) == v,
{
}

/// Executable counterpart of `hex_digit_val`.
pub fn hex_digit(c: char) -> (r: i32)
    ensures
        r as int == hex_digit_val(c),
{
    match c {
        '0' => 0, '1' => 1, '2' => 2, '3' => 3, '4' => 4,
        '5' => 5, '6' => 6, '7' => 7, '8' => 8, '9' => 9,
        'a' | 'A' => 10, 'b' | 'B' => 11, 'c' | 'C' => 12,
        'd' | 'D' => 13, 'e' | 'E' => 14, 'f' | 'F' => 15,
        _ => -1,
    }
}

/// Executable counterpart of `hexdig`.
pub fn hexdig_char(v: u32) -> (c: char)
    ensures
        c == hexdig(v as int),
{
    match v {
        0 => '0', 1 => '1', 2 => '2', 3 => '3', 4 => '4',
        5 => '5', 6 => '6', 7 => '7', 8 => '8', 9 => '9',
        10 => 'a', 11 => 'b', 12 => 'c', 13 => 'd', 14 => 'e', 15 => 'f',
        _ => '0',
    }
}

/// The value of the four hexadecimal digits starting at `i`, or a negative
/// number if any is missing or invalid.
pub open spec fn hex4_val(s: Seq<char>, i: int) -> int {
    if 0 <= i && i + 4 <= s.len() {
        let a = hex_digit_val(s[i]);
        let b = hex_digit_val(s[i + 1]);
        let c = hex_digit_val(s[i + 2]);
        let d = hex_digit_val(s[i + 3]);
        if a >= 0 && b >= 0 && c >= 0 && d >= 0 {
            a * 4096 + b * 256 + c * 16 + d
        } else {
            -1
        }
    } else {
        -1
    }
}

/// Executable counterpart of `hex4_val`.
pub fn hex4(s: &Vec<char>, i: usize) -> (v: i32)
    requires
        i + 4 <= s@.len(),
    ensures
        v as int == hex4_val(s@, i as int),
        -1 <= v < 0x10000,
{
    let n = s.len();
    let a = hex_digit(s[i]);
    let b = hex_digit(s[i + 1]);
    let c = hex_digit(s[i + 2]);
    let d = hex_digit(s[i + 3]);
    if a < 0 || b < 0 || c < 0 || d < 0 {
        -1
    } else {
        a * 4096 + b * 256 + c * 16 + d
    }
}

/// What a single-character escape `\X` stands for, if `X` is one.
pub open spec fn esc_char(e: char) -> Option<char> {
    if e == '"' { Some('"') }
    else if e == '\\' { Some('\\') }
    else if e == '/' { Some('/') }
    else if e == 'n' { Some('\n') }
    else if e == 't' { Some('\t') }
    else if e == 'r' { Some('\r') }
    else if e == 'b' { Some('\u{0008}') }
    else if e == 'f' { Some('\u{000c}') }
    else { None }
}

/// Executable counterpart of `esc_char`.
pub fn unescape_char(e: char) -> (r: Option<char>)
    ensures
        r == esc_char(e),
{
    match e {
        '"' => Some('"'),
        '\\' => Some('\\'),
        '/' => Some('/'),
        'n' => Some('\n'),
        't' => Some('\t'),
        'r' => Some('\r'),
        'b' => Some('\u{0008}'),
        'f' => Some('\u{000c}'),
        _ => None,
    }
}

/// The character with the given code point.
pub open spec fn scalar_char(v: int) -> char {
    (v as u32) as char
}

/// Prefixes a parsed character onto the rest of a parse.
pub open spec fn cons_parse(c: char, r: Option<(Seq<char>, int)>) -> Option<(Seq<char>, int)> {
    match r {
        Some(p) => Some((seq![c] + p.0, p.1)),
        None => None,
    }
}

/// Parses the body of a JSON string starting at `i` (the opening quote is
/// already consumed): the decoded characters and the index just past the
/// closing quote, or `None` if the text up to the closing quote is not a
/// well-formed JSON string body.
pub open spec fn parse_scontent(s: Seq<char>, i: int) -> Option<(Seq<char>, int)>
    decreases s.len() - i,
{
    if i < 0 || i >= s.len() {
        None
    } else if s[i] == '"' {
        Some((Seq::empty(), i + 1))
    } else if s[i] == '\\' {
        if i + 1 >= s.len() {
            None
        } else {
            let e = s[i + 1];
            if e == 'u' {
                let v = hex4_val(s, i + 2);
                if v < 0 {
                    None
                } else if 0xD800 <= v < 0xDC00 {
                    if i + 12 <= s.len() && s[i + 6] == '\\' && s[i + 7] == 'u' {
                        let w = hex4_val(s, i + 8);
                        if 0xDC00 <= w < 0xE000 {
                            let cp = 0x10000 + (v - 0xD800) * 0x400 + (w - 0xDC00);
                            cons_parse(scalar_char(cp), parse_scontent(s, i + 12))
                        } else {
                            None
                        }
                    } else {
                        None
                    }
                } else if 0xDC00 <= v < 0xE000 {
                    None
                } else {
                    cons_parse(scalar_char(v), parse_scontent(s, i + 6))
                }
            } else {
                match esc_char(e) {
                    Some(c) => cons_parse(c, parse_scontent(s, i + 2)),
                    None => None,
                }
            }
        }
    } else if (s[i] as u32) < 0x20 {
        None
    } else {
        cons_parse(s[i], parse_scontent(s, i + 1))
    }
}

/// Parses a complete JSON string (both quotes) starting at `i`.
pub open spec fn parse_string(s: Seq<char>, i: int) -> Option<(Seq<char>, int)> {
    if 0 <= i && i < s.len() && s[i] == '"' {
        parse_scontent(s, i + 1)
    } else {
        None
    }
}

/// Prefixes already-decoded characters onto the rest of a parse.
pub open spec fn prepend_parse(p: Seq<char>, r: Option<(Seq<char>, int)>) -> Option<
    (Seq<char>, int),
> {
    match r {
        Some(q) => Some((p + q.0, q.1)),
        None => None,
    }
}

proof fn lemma_prepend_cons(p: Seq<char>, c: char, r: Option<(Seq<char>, int)>)
    ensures
        prepend_parse(p, cons_parse(c, r)) == prepend_parse(p.push(c), r),
{
    match r {
        Some(q) => {
            assert(p + (seq![c] + q.0) =~= p.push(c) + q.0);
        }
        None => {}
    }
}

/// Executable counterpart of `parse_string`: decodes the string starting at
/// `start` and returns the characters with the index just past the closing
/// quote.
pub fn scan_string(s: &Vec<char>, start: usize) -> (r: Option<(Vec<char>, usize)>)
    requires
        start <= s@.len(),
    ensures
        match r {
            Some(p) => parse_string(s@, start as int) == Some((p.0@, p.1 as int)) && start < p.1
                <= s@.len(),
            None => parse_string(s@, start as int) is None,
        },
{
    let n = s.len();
    if start >= n || s[start] != '"' {
        return None;
    }
    let ghost base: int = start as int + 1;
    let mut acc: Vec<char> = Vec::new();
    let mut i: usize = start + 1;
    loop
        invariant
            start + 1 <= i <= n,
            n == s@.len(),
            s@[start as int] == '"',
            prepend_parse(acc@, parse_scontent(s@, i as int)) == parse_scontent(s@, base),
            base == start + 1,
        decreases n - i,
    {
        if i >= n {
            return None;
        }
        let c = s[i];
        if c == '"' {
            proof {
                assert(parse_scontent(s@, i as int) == Some((Seq::<char>::empty(), i + 1)));
                assert(acc@ + Seq::<char>::empty() =~= acc@);
            }
            return Some((acc, i + 1));
        } else if c == '\\' {
            if i + 1 >= n {
                return None;
            }
            let e = s[i + 1];
            if e == 'u' {
                if n - i < 6 {
                    proof {
                        assert(hex4_val(s@, i + 2) == -1);
                    }
                    return None;
                }
                let v = hex4(s, i + 2);
                if v < 0 {
                    return None;
                }
                if 0xD800 <= v && v < 0xDC00 {
                    if n - i >= 12 && s[i + 6] == '\\' && s[i + 7] == 'u' {
                        let w = hex4(s, i + 8);
                        if 0xDC00 <= w && w < 0xE000 {
                            let cp: u32 = 0x10000 + ((v as u32) - 0xD800) * 0x400 + ((w as u32)
                                - 0xDC00);
                            let c2 = char_of_scalar(cp);
                            proof {
                                broadcast use char_u32_cast;

                                assert(cp as int == 0x10000 + (v - 0xD800) * 0x400 + (w - 0xDC00));
                                assert(c2 == scalar_char(cp as int));
                                assert(parse_scontent(s@, i as int) == cons_parse(
                                    scalar_char(cp as int),
                                    parse_scontent(s@, i + 12),
                                ));
                                lemma_prepend_cons(acc@, c2, parse_scontent(s@, i + 12));
                            }
                            acc.push(c2);
                            i = i + 12;
                        } else {
                            return None;
                        }
                    } else {
                        return None;
                    }
                } else if 0xDC00 <= v && v < 0xE000 {
                    return None;
                } else {
                    let cp: u32 = v as u32;
                    let c2 = char_of_scalar(cp);
                    proof {
                        broadcast use char_u32_cast;

                        assert(c2 == scalar_char(v as int));
                        assert(parse_scontent(s@, i as int) == cons_parse(
                            scalar_char(v as int),
                            parse_scontent(s@, i + 6),
                        ));
                        lemma_prepend_cons(acc@, c2, parse_scontent(s@, i + 6));
                    }
                    acc.push(c2);
                    i = i + 6;
                }
            } else {
                let u = unescape_char(e);
                match u {
                    Some(c2) => {
                        proof {
                            assert(parse_scontent(s@, i as int) == cons_parse(
                                c2,
                                parse_scontent(s@, i + 2),
                            ));
                            lemma_prepend_cons(acc@, c2, parse_scontent(s@, i + 2));
                        }
                        acc.push(c2);
                        i = i + 2;
                    }
                    None => {
                        return None;
                    }
                }
            }
        } else if (c as u32) < 0x20 {
            return None;
        } else {
            proof {
                assert(parse_scontent(s@, i as int) == cons_parse(c, parse_scontent(s@, i + 1)));
                lemma_prepend_cons(acc@, c, parse_scontent(s@, i + 1));
            }
            acc.push(c);
            i = i + 1;
        }
    }
}

/// How one character is written inside a JSON string.
pub open spec fn esc_one(c: char) -> Seq<char> {
    if c == '"' {
        seq!['\\', '"']
    } else if c == '\\' {
        seq!['\\', '\\']
    } else if c == '\n' {
        seq!['\\', 'n']
    } else if c == '\r' {
        seq!['\\', 'r']
    } else if c == '\t' {
        seq!['\\', 't']
    } else if (c as u32) < 0x20 {
        seq!['\\', 'u', '0', '0', hexdig((c as u32) as int / 16), hexdig((c as u32) as int % 16)]
    } else {
        seq![c]
    }
}

/// How a whole text is written inside a JSON string.
pub open spec fn esc_seq(s: Seq<char>) -> Seq<char>
    decreases s.len(),
{
    if s.len() == 0 {
        Seq::empty()
    } else {
        esc_one(s[0]) + esc_seq(s.drop_first())
    }
}

/// Escaping one more character appends its escape.
pub proof fn lemma_esc_seq_snoc(p: Seq<char>, c: char)
    ensures
        esc_seq(p.push(c)) == esc_seq(p) + esc_one(c),
    decreases p.len(),
{
    if p.len() == 0 {
        assert(p.push(c)[0] == c);
        assert(p.push(c).drop_first() =~= Seq::<char>::empty());
        assert(esc_seq(p.push(c)) == esc_one(c) + esc_seq(p.push(c).drop_first()));
        assert(esc_one(c) + Seq::<char>::empty() =~= esc_one(c));
        assert(esc_seq(p) + esc_one(c) =~= esc_one(c));
    } else {
        assert(p.push(c)[0] == p[0]);
        assert(p.push(c).drop_first() =~= p.drop_first().push(c));
        lemma_esc_seq_snoc(p.drop_first(), c);
        assert(esc_one(p[0]) + (esc_seq(p.drop_first()) + esc_one(c)) =~= (esc_one(p[0])
            + esc_seq(p.drop_first())) + esc_one(c));
    }
}

/// Appends the escaped form of `s` to `out`.
pub fn append_escaped(out: &mut String, s: &str)
    ensures
        final(out)@ == old(out)@ + esc_seq(s@),
{
    let n = s.unicode_len();
    let mut i: usize = 0;
    while i < n
        invariant
            i <= n,
            n == s@.len(),
            out@ == old(out)@ + esc_seq(s@.take(i as int)),
        decreases n - i,
    {
        let c = s.get_char(i);
        if c == '"' {
            push_char(out, '\\');
            push_char(out, '"');
        } else if c == '\\' {
            push_char(out, '\\');
            push_char(out, '\\');
        } else if c == '\n' {
            push_char(out, '\\');
            push_char(out, 'n');
        } else if c == '\r' {
            push_char(out, '\\');
            push_char(out, 'r');
        } else if c == '\t' {
            push_char(out, '\\');
            push_char(out, 't');
        } else {
            let u = c as u32;
            if u < 0x20 {
                push_char(out, '\\');
                push_char(out, 'u');
                push_char(out, '0');
                push_char(out, '0');
                push_char(out, hexdig_char(u / 16));
                push_char(out, hexdig_char(u % 16));
            } else {
                push_char(out, c);
            }
        }
        proof {
            lemma_esc_seq_snoc(s@.take(i as int), s@[i as int]);
            assert(s@.take(i + 1) =~= s@.take(i as int).push(s@[i as int]));
            assert(out@ =~= old(out)@ + esc_seq(s@.take(i + 1)));
        }
        i = i + 1;
    }
    proof {
        assert(s@.take(n as int) =~= s@);
    }
}

/// Reading one escaped character consumes exactly its escape and prefixes
/// the character onto whatever parse follows.
proof fn lemma_esc_one_parses(s: Seq<char>, c: char, i: int, rnext: Option<(Seq<char>, int)>)
    requires
        0 <= i,
        i + esc_one(c).len() <= s.len(),
        forall|k: int| 0 <= k < esc_one(c).len() ==> s[i + k] == esc_one(c)[k],
        parse_scontent(s, i + esc_one(c).len() as int) == rnext,
    ensures
        parse_scontent(s, i) == cons_parse(c, rnext),
{
    let e0 = esc_one(c);
    if c == '"' || c == '\\' || c == '\n' || c == '\r' || c == '\t' {
        assert(s[i] == e0[0] && s[i + 1] == e0[1]);
        assert(s[i] == '\\');
        assert(esc_char(s[i + 1]) == Some(c));
        assert(parse_scontent(s, i) == cons_parse(c, parse_scontent(s, i + 2)));
    } else if (c as u32) < 0x20 {
        broadcast use char_u32_cast;

        let u = (c as u32) as int;
        assert(s[i] == e0[0] && s[i + 1] == e0[1] && s[i + 2] == e0[2] && s[i + 3] == e0[3] && s[i
            + 4] == e0[4] && s[i + 5] == e0[5]);
        assert(s[i] == '\\' && s[i + 1] == 'u' && s[i + 2] == '0' && s[i + 3] == '0');
        assert(s[i + 4] == hexdig(u / 16) && s[i + 5] == hexdig(u % 16));
        lemma_hexdig_roundtrip(u / 16);
        lemma_hexdig_roundtrip(u % 16);
        assert(hex4_val(s, i + 2) == 0 * 4096 + 0 * 256 + (u / 16) * 16 + u % 16);
        assert((u / 16) * 16 + u % 16 == u);
        assert(hex4_val(s, i + 2) == u);
        assert(!(0xD800 <= u < 0xDC00) && !(0xDC00 <= u < 0xE000));
        assert(scalar_char(u) == c);
        assert(parse_scontent(s, i) == cons_parse(scalar_char(u), parse_scontent(s, i + 6)));
    } else {
        assert(s[i] == e0[0]);
        assert(s[i] == c);
        assert(parse_scontent(s, i) == cons_parse(c, parse_scontent(s, i + 1)));
    }
}

/// The escaped form of a text, followed by a closing quote, parses back to
/// exactly that text.
pub proof fn lemma_escape_parses(s: Seq<char>, t: Seq<char>, i: int)
    requires
        0 <= i,
        i + esc_seq(t).len() + 1 <= s.len(),
        s.subrange(i, i + esc_seq(t).len() as int) == esc_seq(t),
        s[i + esc_seq(t).len() as int] == '"',
    ensures
        parse_scontent(s, i) == Some((t, i + esc_seq(t).len() + 1)),
    decreases t.len(),
{
    if t.len() == 0 {
        assert(s[i] == '"');
        assert(t =~= Seq::<char>::empty());
    } else {
        let c = t[0];
        let t1 = t.drop_first();
        let e0 = esc_one(c);
        let rest = esc_seq(t1);
        assert(esc_seq(t) == e0 + rest);
        let n0 = e0.len() as int;
        assert forall|k: int| 0 <= k < n0 implies s[i + k] == e0[k] by {
            assert(s.subrange(i, i + esc_seq(t).len() as int)[k] == s[i + k]);
            assert((e0 + rest)[k] == e0[k]);
        }
        assert(s.subrange(i + n0, i + n0 + rest.len() as int) =~= rest) by {
            assert forall|k: int| 0 <= k < rest.len() implies s.subrange(
                i + n0,
                i + n0 + rest.len() as int,
            )[k] == rest[k] by {
                assert(s.subrange(i, i + esc_seq(t).len() as int)[n0 + k] == s[i + n0 + k]);
                assert((e0 + rest)[n0 + k] == rest[k]);
            }
        }
        assert(s[i + n0 + rest.len() as int] == '"');
        lemma_escape_parses(s, t1, i + n0);
        let end = i + n0 + rest.len() + 1;
        assert(parse_scontent(s, i + n0) == Some((t1, end)));
        lemma_esc_one_parses(s, c, i, Some((t1, end)));
        assert(seq![c] + t1 =~= t);
        assert(parse_scontent(s, i) == Some((t, end)));
    }
}

} // verus!
