//! The mathematical model of literal decoding.
//!
//! Every decoder in [`crate::internal`] is specified against a function in
//! this module.  Character-oriented literals (strings, chars, floats, doc
//! comments) are modelled over `Seq<char>`, the view of `str`; byte-oriented
//! literals (integers, bytes, byte strings) are modelled over `Seq<u8>`, the
//! UTF-8 bytes of the text.  Each model mirrors the scanner it describes:
//! a recursive walk over the remaining input, returning [`Decoded`].

use vstd::prelude::*;

use crate::Decoded;
use crate::FloatSuffix;
use crate::IntLit;
use crate::IntSuffix;

verus! {

/// The mathematical value of a float literal's scanned parts: the numeric
/// text, with underscores and the suffix stripped, and the suffix.
pub struct FloatVal {
    pub number: Seq<char>,
    pub suffix: FloatSuffix,
}

// The ASCII bytes that the literal grammar singles out.
pub const B_0: u8 = 0x30;
pub const B_1: u8 = 0x31;
pub const B_2: u8 = 0x32;
pub const B_3: u8 = 0x33;
pub const B_4: u8 = 0x34;
pub const B_6: u8 = 0x36;
pub const B_8: u8 = 0x38;
pub const B_9: u8 = 0x39;
pub const B_LOW_A: u8 = 0x61;
pub const B_LOW_B: u8 = 0x62;
pub const B_LOW_E: u8 = 0x65;
pub const B_LOW_F: u8 = 0x66;
pub const B_LOW_I: u8 = 0x69;
pub const B_LOW_N: u8 = 0x6e;
pub const B_LOW_O: u8 = 0x6f;
pub const B_LOW_R: u8 = 0x72;
pub const B_LOW_S: u8 = 0x73;
pub const B_LOW_T: u8 = 0x74;
pub const B_LOW_U: u8 = 0x75;
pub const B_LOW_X: u8 = 0x78;
pub const B_LOW_Z: u8 = 0x7a;
pub const B_UP_A: u8 = 0x41;
pub const B_UP_E: u8 = 0x45;
pub const B_UP_F: u8 = 0x46;
pub const B_UP_X: u8 = 0x58;
pub const B_UNDERSCORE: u8 = 0x5f;
pub const B_DOT: u8 = 0x2e;
pub const B_QUOTE: u8 = 0x22;
pub const B_SQUOTE: u8 = 0x27;
pub const B_BACKSLASH: u8 = 0x5c;
pub const B_TAB: u8 = 0x09;
pub const B_NL: u8 = 0x0a;
pub const B_VT: u8 = 0x0b;
pub const B_FF: u8 = 0x0c;
pub const B_CR: u8 = 0x0d;
pub const B_SPACE: u8 = 0x20;
pub const B_NEL: u8 = 0x85;
pub const B_NBSP: u8 = 0xa0;

/// The byte at offset `i`, or zero past the end of the input.
pub open spec fn spec_byte_at(s: Seq<u8>, i: int) -> u8 {
    if 0 <= i < s.len() {
        s[i]
    } else {
        0
    }
}

/// Whether `b` spells a decimal digit.
pub open spec fn is_dec_digit(b: u8) -> bool {
    B_0 <= b <= B_9
}

/// The suffix at the end of an integer literal: the remaining bytes must
/// exactly equal one of the enumerated spellings, or be empty.
pub open spec fn spec_int_suffix(s: Seq<u8>) -> Option<IntSuffix> {
    if s.len() == 0 {
        Some(IntSuffix::Empty)
    } else if s.len() == 2 && s[0] == B_LOW_U && s[1] == B_8 {
        Some(IntSuffix::U8)
    } else if s.len() == 2 && s[0] == B_LOW_I && s[1] == B_8 {
        Some(IntSuffix::I8)
    } else if s.len() == 3 && s[0] == B_LOW_U && s[1] == B_1 && s[2] == B_6 {
        Some(IntSuffix::U16)
    } else if s.len() == 3 && s[0] == B_LOW_I && s[1] == B_1 && s[2] == B_6 {
        Some(IntSuffix::I16)
    } else if s.len() == 3 && s[0] == B_LOW_U && s[1] == B_3 && s[2] == B_2 {
        Some(IntSuffix::U32)
    } else if s.len() == 3 && s[0] == B_LOW_I && s[1] == B_3 && s[2] == B_2 {
        Some(IntSuffix::I32)
    } else if s.len() == 3 && s[0] == B_LOW_U && s[1] == B_6 && s[2] == B_4 {
        Some(IntSuffix::U64)
    } else if s.len() == 3 && s[0] == B_LOW_I && s[1] == B_6 && s[2] == B_4 {
        Some(IntSuffix::I64)
    } else if s.len() == 5 && s[0] == B_LOW_U && s[1] == B_LOW_S && s[2] == B_LOW_I && s[3] == B_LOW_Z
        && s[4] == B_LOW_E {
        Some(IntSuffix::Usize)
    } else if s.len() == 5 && s[0] == B_LOW_I && s[1] == B_LOW_S && s[2] == B_LOW_I && s[3] == B_LOW_Z
        && s[4] == B_LOW_E {
        Some(IntSuffix::Isize)
    } else {
        None
    }
}

/// One step of checked digit accumulation: multiply the running value by the
/// base and add the digit; the value becomes permanently absent on overflow.
pub open spec fn spec_int_step(val: Option<u64>, base: u64, d: u64) -> Option<u64> {
    match val {
        Some(v) => if v * base + d <= u64::MAX {
            Some((v * base + d) as u64)
        } else {
            None
        },
        None => None,
    }
}

/// The literal built from the accumulated value and the trailing suffix.
pub open spec fn spec_int_finish(s: Seq<u8>, val: Option<u64>) -> Decoded<IntLit> {
    match spec_int_suffix(s) {
        Some(sx) => Decoded::Value(IntLit { val, suffix: sx }),
        None => Decoded::NotApplicable,
    }
}

/// The digit scan of an integer literal after base detection: digits
/// accumulate into `val`, underscores are skipped, a decimal point or
/// exponent letter in base 10 defers to the float decoder, a decimal digit
/// at or above the base breaks the grammar, and anything else ends the scan
/// and must be a valid suffix.
pub open spec fn spec_int_digits(s: Seq<u8>, base: u64, val: Option<u64>) -> Decoded<IntLit>
    decreases s.len(),
{
    if s.len() == 0 {
        spec_int_finish(s, val)
    } else {
        let b = s[0];
        if is_dec_digit(b) {
            if (b - B_0) as u64 >= base {
                Decoded::Malformed
            } else {
                spec_int_digits(s.skip(1), base, spec_int_step(val, base, (b - B_0) as u64))
            }
        } else if base > 10 && B_LOW_A <= b <= B_LOW_F {
            spec_int_digits(s.skip(1), base, spec_int_step(val, base, (10 + (b - B_LOW_A)) as u64))
        } else if base > 10 && B_UP_A <= b <= B_UP_F {
            spec_int_digits(s.skip(1), base, spec_int_step(val, base, (10 + (b - B_UP_A)) as u64))
        } else if b == B_UNDERSCORE {
            spec_int_digits(s.skip(1), base, val)
        } else if base == 10 && (b == B_DOT || b == B_LOW_E || b == B_UP_E) {
            Decoded::NotApplicable
        } else {
            spec_int_finish(s, val)
        }
    }
}

/// Whether `c`, as a character, spells a decimal digit.
pub open spec fn is_dec_char(c: char) -> bool {
    0x30 <= (c as u32) <= 0x39
}

/// Whether `c` has the Unicode `White_Space` property, the set of characters
/// skipped after a line-continuation backslash.
pub open spec fn is_ws_char(c: char) -> bool {
    let u = c as u32;
    u == 0x09 || u == 0x0a || u == 0x0b || u == 0x0c || u == 0x0d || u == 0x20 || u == 0x85
        || u == 0xa0 || u == 0x1680 || (0x2000 <= u && u <= 0x200a) || u == 0x2028 || u == 0x2029
        || u == 0x202f || u == 0x205f || u == 0x3000
}

/// Whether the byte `b`, read as a character, has the Unicode `White_Space`
/// property; this is the whitespace test of the byte-string scanner.
pub open spec fn is_ws_byte(b: u8) -> bool {
    b == B_TAB || b == B_NL || b == B_VT || b == B_FF || b == B_CR || b == B_SPACE || b == B_NEL
        || b == B_NBSP
}

/// The value of one hexadecimal digit character, of either case.
pub open spec fn spec_hex_char(c: char) -> Option<u8> {
    let u = c as u32;
    if 0x30 <= u && u <= 0x39 {
        Some((u - 0x30) as u8)
    } else if 0x61 <= u && u <= 0x66 {
        Some((u - 0x61 + 10) as u8)
    } else if 0x41 <= u && u <= 0x46 {
        Some((u - 0x41 + 10) as u8)
    } else {
        None
    }
}

/// The value of one hexadecimal digit byte, of either case.
pub open spec fn spec_hex_byte(b: u8) -> Option<u8> {
    if B_0 <= b && b <= B_9 {
        Some((b - B_0) as u8)
    } else if B_LOW_A <= b && b <= B_LOW_F {
        Some((b - B_LOW_A + 10) as u8)
    } else if B_UP_A <= b && b <= B_UP_F {
        Some((b - B_UP_A + 10) as u8)
    } else {
        None
    }
}

/// Whether `u` is a Unicode scalar value: not a surrogate and at most
/// `0x10FFFF`; exactly the code points that form a `char`.
pub open spec fn is_unicode_scalar(u: u32) -> bool {
    u < 0xd800 || (0xe000 <= u && u <= 0x10ffff)
}

/// The character meant by a single-character escape, or `None` when the
/// escaped character is not in the escape table.
pub open spec fn spec_simple_escape_char(e: char) -> Option<char> {
    if e == 'n' {
        Some('\n')
    } else if e == 'r' {
        Some('\r')
    } else if e == 't' {
        Some('\t')
    } else if e == '\\' {
        Some('\\')
    } else if e == '0' {
        Some('\0')
    } else if e == '\'' {
        Some('\'')
    } else if e == '"' {
        Some('"')
    } else {
        None
    }
}

/// The byte meant by a single-character escape in a byte or byte-string
/// literal, or `None` when the escaped byte is not in the escape table.
pub open spec fn spec_simple_escape_byte(e: u8) -> Option<u8> {
    if e == B_LOW_N {
        Some(B_NL)
    } else if e == B_LOW_R {
        Some(B_CR)
    } else if e == B_LOW_T {
        Some(B_TAB)
    } else if e == B_BACKSLASH {
        Some(B_BACKSLASH)
    } else if e == B_0 {
        Some(0)
    } else if e == B_SQUOTE {
        Some(B_SQUOTE)
    } else if e == B_QUOTE {
        Some(B_QUOTE)
    } else {
        None
    }
}

/// The byte encoded by the two hexadecimal digit characters at the head of
/// `s`, after a `\x` escape; `None` when either digit is missing or not
/// hexadecimal.
pub open spec fn spec_backslash_x_chars(s: Seq<char>) -> Option<u8> {
    if s.len() >= 2 {
        match (spec_hex_char(s[0]), spec_hex_char(s[1])) {
            (Some(h), Some(l)) => Some((h * 16 + l) as u8),
            _ => None,
        }
    } else {
        None
    }
}

/// The byte encoded by the two hexadecimal digit bytes at the head of `s`,
/// after a `\x` escape; `None` when either digit is missing or not
/// hexadecimal.
pub open spec fn spec_backslash_x_bytes(s: Seq<u8>) -> Option<u8> {
    if s.len() >= 2 {
        match (spec_hex_byte(s[0]), spec_hex_byte(s[1])) {
            (Some(h), Some(l)) => Some((h * 16 + l) as u8),
            _ => None,
        }
    } else {
        None
    }
}

/// The digit walk of a `\u{...}` escape after the opening brace: up to `k`
/// more hexadecimal digits accumulate into `ch` until the closing brace,
/// which yields the rest of the input and the accumulated code point.
pub open spec fn spec_bu_digits(s: Seq<char>, k: nat, ch: u32) -> Option<(Seq<char>, u32)>
    decreases s.len(),
{
    if s.len() == 0 {
        None
    } else if s[0] == '}' {
        Some((s.skip(1), ch))
    } else if k == 0 {
        None
    } else {
        match spec_hex_char(s[0]) {
            Some(d) => spec_bu_digits(s.skip(1), (k - 1) as nat, (ch * 16 + d) as u32),
            None => None,
        }
    }
}

/// A `\u{...}` escape read from the head of `s`, which starts just after the
/// `u`: an opening brace, up to six hexadecimal digits and a closing brace,
/// whose code point must be a Unicode scalar value.  Yields the rest of the
/// input and the character.
pub open spec fn spec_backslash_u(s: Seq<char>) -> Option<(Seq<char>, char)> {
    if s.len() >= 1 && s[0] == '{' {
        match spec_bu_digits(s.skip(1), 6, 0) {
            Some((rest, ch)) => if is_unicode_scalar(ch) {
                Some((rest, (ch as char)))
            } else {
                None
            },
            None => None,
        }
    } else {
        None
    }
}

/// The position of the first `"` in `s`, if any.
pub open spec fn spec_first_quote(s: Seq<char>) -> Option<int>
    decreases s.len(),
{
    if s.len() == 0 {
        None
    } else if s[0] == '"' {
        Some(0)
    } else {
        match spec_first_quote(s.skip(1)) {
            Some(i) => Some(i + 1),
            None => None,
        }
    }
}

/// The position of the last `"` in `s`, if any.
pub open spec fn spec_last_quote(s: Seq<char>) -> Option<int>
    decreases s.len(),
{
    if s.len() == 0 {
        None
    } else if s[s.len() - 1] == '"' {
        Some(s.len() - 1)
    } else {
        spec_last_quote(s.drop_last())
    }
}

/// The content of a raw literal: the text strictly between the first and the
/// last `"` of its full token text, verbatim.  `None` when the token does not
/// hold two distinct quotes, which a well-formed raw literal always does.
pub open spec fn spec_raw_content(s: Seq<char>) -> Option<Seq<char>> {
    match (spec_first_quote(s), spec_last_quote(s)) {
        (Some(b), Some(e)) => if b < e {
            Some(s.subrange(b + 1, e))
        } else {
            None
        },
        _ => None,
    }
}

/// The position of the first `"` byte in `s`, if any.
pub open spec fn spec_first_quote_byte(s: Seq<u8>) -> Option<int>
    decreases s.len(),
{
    if s.len() == 0 {
        None
    } else if s[0] == B_QUOTE {
        Some(0)
    } else {
        match spec_first_quote_byte(s.skip(1)) {
            Some(i) => Some(i + 1),
            None => None,
        }
    }
}

/// The position of the last `"` byte in `s`, if any.
pub open spec fn spec_last_quote_byte(s: Seq<u8>) -> Option<int>
    decreases s.len(),
{
    if s.len() == 0 {
        None
    } else if s[s.len() - 1] == B_QUOTE {
        Some(s.len() - 1)
    } else {
        spec_last_quote_byte(s.drop_last())
    }
}

/// The content of a raw byte-string literal: the bytes strictly between the
/// first and the last `"` byte of its full token text, verbatim.
pub open spec fn spec_raw_content_bytes(s: Seq<u8>) -> Option<Seq<u8>> {
    match (spec_first_quote_byte(s), spec_last_quote_byte(s)) {
        (Some(b), Some(e)) => if b < e {
            Some(s.subrange(b + 1, e))
        } else {
            None
        },
        _ => None,
    }
}

/// The escape-aware walk of a quoted string body, from just past the opening
/// quote: plain characters are copied, escapes are decoded, a backslash
/// before a line break skips the following whitespace, a bare carriage
/// return must pair with a newline, and the scan must end exactly on the
/// closing quote.
pub open spec fn spec_str_body(s: Seq<char>, acc: Seq<char>) -> Decoded<Seq<char>>
    decreases s.len(), 0int,
{
    if s.len() == 0 {
        Decoded::Malformed
    } else if s[0] == '"' {
        if s.len() == 1 {
            Decoded::Value(acc)
        } else {
            Decoded::Malformed
        }
    } else if s[0] == '\\' {
        if s.len() < 2 {
            Decoded::Malformed
        } else {
            let e = s[1];
            let rest = s.skip(2);
            if e == 'x' {
                if rest.len() >= 2 {
                    match spec_backslash_x_chars(rest) {
                        Some(v) => if v <= 0x80 {
                            spec_str_body(rest.skip(2), acc.push(((v as u32) as char)))
                        } else {
                            Decoded::Malformed
                        },
                        None => Decoded::Malformed,
                    }
                } else {
                    Decoded::Malformed
                }
            } else if e == 'u' {
                match spec_backslash_u(rest) {
                    Some((rest2, ch)) => if rest2.len() < s.len() {
                        spec_str_body(rest2, acc.push(ch))
                    } else {
                        Decoded::Malformed
                    },
                    None => Decoded::Malformed,
                }
            } else if e == '\r' || e == '\n' {
                spec_str_ws(rest, acc)
            } else {
                match spec_simple_escape_char(e) {
                    Some(ch) => spec_str_body(rest, acc.push(ch)),
                    None => Decoded::Malformed,
                }
            }
        }
    } else if s[0] == '\r' {
        if s.len() >= 2 && s[1] == '\n' {
            spec_str_body(s.skip(2), acc.push('\n'))
        } else {
            Decoded::Malformed
        }
    } else {
        spec_str_body(s.skip(1), acc.push(s[0]))
    }
}

/// The whitespace run after a line-continuation backslash: characters with
/// the `White_Space` property are skipped, and the scan resumes at the first
/// character without it.
pub open spec fn spec_str_ws(s: Seq<char>, acc: Seq<char>) -> Decoded<Seq<char>>
    decreases s.len(), 1int,
{
    if s.len() > 0 && is_ws_char(s[0]) {
        spec_str_ws(s.skip(1), acc)
    } else {
        spec_str_body(s, acc)
    }
}

/// A decoded string literal: a leading `"` opens a quoted string scanned by
/// [`spec_str_body`]; a leading `r` marks a raw string whose content between
/// the quotes is taken verbatim; any other head is not a string literal.
pub open spec fn spec_str_lit(s: Seq<char>) -> Decoded<Seq<char>> {
    if s.len() == 0 {
        Decoded::NotApplicable
    } else if s[0] == 'r' {
        match spec_raw_content(s) {
            Some(c) => Decoded::Value(c),
            None => Decoded::Malformed,
        }
    } else if s[0] == '"' {
        spec_str_body(s.skip(1), Seq::<char>::empty())
    } else {
        Decoded::NotApplicable
    }
}

/// The escape-aware walk of a quoted byte-string body, from just past the
/// opening quote.  It mirrors [`spec_str_body`] over raw bytes: `\x` takes
/// the full byte range and there is no `\u` escape.
pub open spec fn spec_byte_body(s: Seq<u8>, acc: Seq<u8>) -> Decoded<Seq<u8>>
    decreases s.len(), 0int,
{
    if s.len() == 0 {
        Decoded::Malformed
    } else if s[0] == B_QUOTE {
        if s.len() == 1 {
            Decoded::Value(acc)
        } else {
            Decoded::Malformed
        }
    } else if s[0] == B_BACKSLASH {
        if s.len() < 2 {
            Decoded::Malformed
        } else {
            let e = s[1];
            let rest = s.skip(2);
            if e == B_LOW_X {
                if rest.len() >= 2 {
                    match spec_backslash_x_bytes(rest) {
                        Some(v) => spec_byte_body(rest.skip(2), acc.push(v)),
                        None => Decoded::Malformed,
                    }
                } else {
                    Decoded::Malformed
                }
            } else if e == B_CR || e == B_NL {
                spec_byte_ws(rest, acc)
            } else {
                match spec_simple_escape_byte(e) {
                    Some(v) => spec_byte_body(rest, acc.push(v)),
                    None => Decoded::Malformed,
                }
            }
        }
    } else if s[0] == B_CR {
        if s.len() >= 2 && s[1] == B_NL {
            spec_byte_body(s.skip(2), acc.push(B_NL))
        } else {
            Decoded::Malformed
        }
    } else {
        spec_byte_body(s.skip(1), acc.push(s[0]))
    }
}

/// The whitespace run after a line-continuation backslash in a byte string.
pub open spec fn spec_byte_ws(s: Seq<u8>, acc: Seq<u8>) -> Decoded<Seq<u8>>
    decreases s.len(), 1int,
{
    if s.len() > 0 && is_ws_byte(s[0]) {
        spec_byte_ws(s.skip(1), acc)
    } else {
        spec_byte_body(s, acc)
    }
}

/// A decoded byte-string literal: `b"` opens a quoted byte string scanned by
/// [`spec_byte_body`]; `br` marks a raw byte string taken verbatim between
/// its quotes; any other head is not a byte-string literal.
pub open spec fn spec_byte_str_lit(s: Seq<u8>) -> Decoded<Seq<u8>> {
    if s.len() >= 2 && s[0] == B_LOW_B && s[1] == B_QUOTE {
        spec_byte_body(s.skip(2), Seq::<u8>::empty())
    } else if s.len() >= 2 && s[0] == B_LOW_B && s[1] == B_LOW_R {
        match spec_raw_content_bytes(s) {
            Some(c) => Decoded::Value(c),
            None => Decoded::Malformed,
        }
    } else {
        Decoded::NotApplicable
    }
}

/// The closing of a character literal: after its single unit, exactly the
/// closing quote must remain.
pub open spec fn spec_char_close(rest: Seq<char>, ch: char) -> Decoded<char> {
    if rest.len() == 1 && rest[0] == '\'' {
        Decoded::Value(ch)
    } else {
        Decoded::Malformed
    }
}

/// A decoded character literal: an opening `'`, one plain character or one
/// escape, and the closing quote.
pub open spec fn spec_char_lit(s: Seq<char>) -> Decoded<char> {
    if s.len() == 0 || s[0] != '\'' {
        Decoded::NotApplicable
    } else {
        let t = s.skip(1);
        if t.len() == 0 {
            Decoded::Malformed
        } else if t[0] == '\\' {
            if t.len() < 2 {
                Decoded::Malformed
            } else {
                let e = t[1];
                let rest = t.skip(2);
                if e == 'x' {
                    if rest.len() >= 2 {
                        match spec_backslash_x_chars(rest) {
                            Some(v) => if v <= 0x80 {
                                spec_char_close(rest.skip(2), ((v as u32) as char))
                            } else {
                                Decoded::Malformed
                            },
                            None => Decoded::Malformed,
                        }
                    } else {
                        Decoded::Malformed
                    }
                } else if e == 'u' {
                    match spec_backslash_u(rest) {
                        Some((rest2, ch)) => spec_char_close(rest2, ch),
                        None => Decoded::Malformed,
                    }
                } else {
                    match spec_simple_escape_char(e) {
                        Some(ch) => spec_char_close(rest, ch),
                        None => Decoded::Malformed,
                    }
                }
            }
        } else {
            spec_char_close(t.skip(1), t[0])
        }
    }
}

/// The closing of a byte literal: the byte after its single unit must be
/// the closing quote; bytes beyond it are not inspected.
pub open spec fn spec_byte_close(rest: Seq<u8>, v: u8) -> Decoded<u8> {
    if rest.len() >= 1 && rest[0] == B_SQUOTE {
        Decoded::Value(v)
    } else {
        Decoded::Malformed
    }
}

/// A decoded byte literal: an opening `b'`, one plain byte or one escape
/// (with no `\u` form), and the closing quote.
pub open spec fn spec_byte_lit(s: Seq<u8>) -> Decoded<u8> {
    if s.len() >= 2 && s[0] == B_LOW_B && s[1] == B_SQUOTE {
        let t = s.skip(2);
        if t.len() == 0 {
            Decoded::Malformed
        } else if t[0] == B_BACKSLASH {
            if t.len() < 2 {
                Decoded::Malformed
            } else {
                let e = t[1];
                let rest = t.skip(2);
                if e == B_LOW_X {
                    if rest.len() >= 2 {
                        match spec_backslash_x_bytes(rest) {
                            Some(v) => spec_byte_close(rest.skip(2), v),
                            None => Decoded::Malformed,
                        }
                    } else {
                        Decoded::Malformed
                    }
                } else {
                    match spec_simple_escape_byte(e) {
                        Some(v) => spec_byte_close(rest, v),
                        None => Decoded::Malformed,
                    }
                }
            }
        } else {
            spec_byte_close(t.skip(1), t[0])
        }
    } else {
        Decoded::NotApplicable
    }
}

/// Whether the text begins with an outer doc-comment marker, `///` or `/**`.
pub open spec fn is_outer_doc(s: Seq<char>) -> bool {
    s.len() >= 3 && s[0] == '/' && ((s[1] == '/' && s[2] == '/') || (s[1] == '*' && s[2] == '*'))
}

/// Whether the text begins with an inner doc-comment marker, `//!` or `/*!`.
pub open spec fn is_inner_doc(s: Seq<char>) -> bool {
    s.len() >= 3 && s[0] == '/' && ((s[1] == '/' && s[2] == '!') || (s[1] == '*' && s[2] == '!'))
}

/// The first character of the text, or NUL when it is empty.
pub open spec fn spec_next_chr(s: Seq<char>) -> char {
    if s.len() == 0 {
        '\0'
    } else {
        s[0]
    }
}

/// The text with every occurrence of the ASCII character `remove` taken out.
pub open spec fn spec_removed(s: Seq<char>, remove: u8) -> Seq<char> {
    s.filter(|c: char| c as u32 != remove as u32)
}

/// The text with its underscore separators taken out, the first step of
/// float decoding.
pub open spec fn strip_underscores(s: Seq<char>) -> Seq<char> {
    spec_removed(s, B_UNDERSCORE)
}

/// A decoded integer literal: a base prefix of `0x` (either case of `x`),
/// `0o` or `0b` or a bare decimal digit selects the base, then the digits
/// and the suffix are scanned by [`spec_int_digits`].
pub open spec fn spec_int_lit(s: Seq<u8>) -> Decoded<IntLit> {
    if s.len() >= 2 && s[0] == B_0 && (s[1] == B_LOW_X || s[1] == B_UP_X) {
        spec_int_digits(s.skip(2), 16, Some(0u64))
    } else if s.len() >= 2 && s[0] == B_0 && s[1] == B_LOW_O {
        spec_int_digits(s.skip(2), 8, Some(0u64))
    } else if s.len() >= 2 && s[0] == B_0 && s[1] == B_LOW_B {
        spec_int_digits(s.skip(2), 2, Some(0u64))
    } else if s.len() >= 1 && is_dec_digit(s[0]) {
        spec_int_digits(s, 10, Some(0u64))
    } else {
        Decoded::NotApplicable
    }
}

/// The suffix at the end of a float literal: the remaining characters must
/// exactly equal `f32` or `f64`, or be empty.
pub open spec fn spec_float_suffix(s: Seq<char>) -> Option<FloatSuffix> {
    if s.len() == 0 {
        Some(FloatSuffix::Empty)
    } else if s.len() == 3 && s[0] == 'f' && s[1] == '3' && s[2] == '2' {
        Some(FloatSuffix::F32)
    } else if s.len() == 3 && s[0] == 'f' && s[1] == '6' && s[2] == '4' {
        Some(FloatSuffix::F64)
    } else {
        None
    }
}

/// The end of the float scan, stopped at position `i` of the filtered text
/// `t`: the remainder must be a valid suffix; a text with neither a decimal
/// point, an exponent nor a suffix is an integer literal in disguise; an
/// exponent with more than one sign cannot be converted and breaks the
/// grammar.  Otherwise the numeric text before `i` is paired with the
/// suffix.
pub open spec fn spec_float_finish(
    t: Seq<char>,
    i: int,
    has_dot: bool,
    has_exp: bool,
    signs: int,
) -> Decoded<FloatVal> {
    match spec_float_suffix(t.skip(i)) {
        Some(sx) => if !has_dot && !has_exp && sx == FloatSuffix::Empty {
            Decoded::NotApplicable
        } else if signs >= 2 {
            Decoded::Malformed
        } else {
            Decoded::Value(FloatVal { number: t.take(i), suffix: sx })
        },
        None => Decoded::NotApplicable,
    }
}

/// The exponent scan of a float literal, from just past the `e`: signs are
/// taken while no digit has been seen yet, then digits; at least one digit
/// must appear.  Underscores were already stripped but are skipped here as
/// the scanner would.
pub open spec fn spec_float_exp(
    t: Seq<char>,
    i: int,
    has_dot: bool,
    signs: int,
    has_digit: bool,
) -> Decoded<FloatVal>
    decreases t.len() - i,
{
    if !(0 <= i < t.len()) {
        if has_digit {
            spec_float_finish(t, i, has_dot, true, signs)
        } else {
            Decoded::Malformed
        }
    } else {
        let c = t[i];
        if (c == '+' || c == '-') && !has_digit {
            spec_float_exp(t, i + 1, has_dot, signs + 1, has_digit)
        } else if is_dec_char(c) {
            spec_float_exp(t, i + 1, has_dot, signs, true)
        } else if c == '_' {
            spec_float_exp(t, i + 1, has_dot, signs, has_digit)
        } else {
            if has_digit {
                spec_float_finish(t, i, has_dot, true, signs)
            } else {
                Decoded::Malformed
            }
        }
    }
}

/// The main scan of a float literal over the filtered text `t`: digits
/// advance, a single decimal point is allowed, and an exponent letter hands
/// over to [`spec_float_exp`], after which the scan stops.
pub open spec fn spec_float_scan(t: Seq<char>, i: int, has_dot: bool) -> Decoded<FloatVal>
    decreases t.len() - i,
{
    if !(0 <= i < t.len()) {
        spec_float_finish(t, i, has_dot, false, 0)
    } else {
        let c = t[i];
        if is_dec_char(c) {
            spec_float_scan(t, i + 1, has_dot)
        } else if c == '.' {
            if has_dot {
                Decoded::Malformed
            } else {
                spec_float_scan(t, i + 1, true)
            }
        } else if c == 'e' || c == 'E' {
            spec_float_exp(t, i + 1, has_dot, 0, false)
        } else {
            spec_float_finish(t, i, has_dot, false, 0)
        }
    }
}

/// A decoded float literal: a text with a base prefix is never a float; a
/// text that does not start with a decimal digit is not a float; otherwise
/// underscores are stripped and the text is scanned by [`spec_float_scan`].
pub open spec fn spec_float_lit(s: Seq<char>) -> Decoded<FloatVal> {
    if s.len() >= 2 && s[0] == '0' && (s[1] == 'x' || s[1] == 'o' || s[1] == 'b') {
        Decoded::NotApplicable
    } else if s.len() >= 1 && is_dec_char(s[0]) {
        spec_float_scan(strip_underscores(s), 0, false)
    } else {
        Decoded::NotApplicable
    }
}

} // verus!
