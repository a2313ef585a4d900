//! The literal scanners, each verified against its model in [`crate::model`].

use vstd::prelude::*;
use vstd::string::StringSliceAdditionalSpecFns;

use crate::Decoded;
use crate::FloatParts;
use crate::FloatSuffix;
use crate::IntLit;
use crate::IntSuffix;
use crate::model::B_0;
use crate::model::B_1;
use crate::model::B_2;
use crate::model::B_3;
use crate::model::B_4;
use crate::model::B_6;
use crate::model::B_8;
use crate::model::B_9;
use crate::model::B_BACKSLASH;
use crate::model::B_CR;
use crate::model::B_DOT;
use crate::model::B_FF;
use crate::model::B_LOW_A;
use crate::model::B_LOW_B;
use crate::model::B_LOW_E;
use crate::model::B_LOW_F;
use crate::model::B_LOW_I;
use crate::model::B_LOW_N;
use crate::model::B_LOW_O;
use crate::model::B_LOW_R;
use crate::model::B_LOW_S;
use crate::model::B_LOW_T;
use crate::model::B_LOW_U;
use crate::model::B_LOW_X;
use crate::model::B_LOW_Z;
use crate::model::B_NBSP;
use crate::model::B_NEL;
use crate::model::B_NL;
use crate::model::B_QUOTE;
use crate::model::B_SPACE;
use crate::model::B_SQUOTE;
use crate::model::B_TAB;
use crate::model::B_UNDERSCORE;
use crate::model::B_UP_A;
use crate::model::B_UP_E;
use crate::model::B_UP_F;
use crate::model::B_UP_X;
use crate::model::B_VT;
use crate::model::is_inner_doc;
use crate::model::is_outer_doc;
use crate::model::is_unicode_scalar;
use crate::model::is_ws_byte;
use crate::model::is_ws_char;
use crate::model::spec_backslash_u;
use crate::model::spec_backslash_x_bytes;
use crate::model::spec_backslash_x_chars;
use crate::model::spec_bu_digits;
use crate::model::spec_byte_body;
use crate::model::spec_byte_lit;
use crate::model::spec_byte_str_lit;
use crate::model::spec_byte_ws;
use crate::model::spec_char_lit;
use crate::model::spec_first_quote;
use crate::model::spec_first_quote_byte;
use crate::model::spec_float_exp;
use crate::model::spec_float_finish;
use crate::model::spec_float_lit;
use crate::model::spec_float_scan;
use crate::model::spec_float_suffix;
use crate::model::spec_hex_byte;
use crate::model::spec_hex_char;
use crate::model::spec_last_quote;
use crate::model::spec_last_quote_byte;
use crate::model::spec_next_chr;
use crate::model::spec_raw_content;
use crate::model::spec_raw_content_bytes;
use crate::model::spec_removed;
use crate::model::spec_simple_escape_byte;
use crate::model::spec_simple_escape_char;
use crate::model::spec_str_body;
use crate::model::spec_str_lit;
use crate::model::spec_str_ws;
use crate::model::strip_underscores;
use crate::model::spec_byte_at;
use crate::model::spec_int_digits;
use crate::model::spec_int_finish;
use crate::model::spec_int_lit;
use crate::model::spec_int_step;
use crate::model::spec_int_suffix;

verus! {

/// Get the byte at offset `idx`, or a default of `0` if we're looking past
/// the end of the input buffer.
pub fn byte(s: &[u8], idx: usize) -> (b: u8)
    ensures
        b == spec_byte_at(s@, idx as int),
{
    if idx < s.len() {
        s[idx]
    } else {
        0
    }
}

/// The suffix of an integer literal, read from offset `i` to the end.
fn int_suffix_at(s: &[u8], i: usize) -> (r: Option<IntSuffix>)
    requires
        i <= s@.len(),
    ensures
        r == spec_int_suffix(s@.skip(i as int)),
{
    let n = s.len();
    let m = n - i;
    if m == 0 {
        Some(IntSuffix::Empty)
    } else if m == 2 && s[i] == B_LOW_U && s[i + 1] == B_8 {
        Some(IntSuffix::U8)
    } else if m == 2 && s[i] == B_LOW_I && s[i + 1] == B_8 {
        Some(IntSuffix::I8)
    } else if m == 3 && s[i] == B_LOW_U && s[i + 1] == B_1 && s[i + 2] == B_6 {
        Some(IntSuffix::U16)
    } else if m == 3 && s[i] == B_LOW_I && s[i + 1] == B_1 && s[i + 2] == B_6 {
        Some(IntSuffix::I16)
    } else if m == 3 && s[i] == B_LOW_U && s[i + 1] == B_3 && s[i + 2] == B_2 {
        Some(IntSuffix::U32)
    } else if m == 3 && s[i] == B_LOW_I && s[i + 1] == B_3 && s[i + 2] == B_2 {
        Some(IntSuffix::I32)
    } else if m == 3 && s[i] == B_LOW_U && s[i + 1] == B_6 && s[i + 2] == B_4 {
        Some(IntSuffix::U64)
    } else if m == 3 && s[i] == B_LOW_I && s[i + 1] == B_6 && s[i + 2] == B_4 {
        Some(IntSuffix::I64)
    } else if m == 5 && s[i] == B_LOW_U && s[i + 1] == B_LOW_S && s[i + 2] == B_LOW_I && s[i + 3] == B_LOW_Z
        && s[i + 4] == B_LOW_E {
        Some(IntSuffix::Usize)
    } else if m == 5 && s[i] == B_LOW_I && s[i + 1] == B_LOW_S && s[i + 2] == B_LOW_I && s[i + 3] == B_LOW_Z
        && s[i + 4] == B_LOW_E {
        Some(IntSuffix::Isize)
    } else {
        None
    }
}

/// Decode an integer literal: detect the base from the leading prefix,
/// accumulate digits with overflow latched to an absent value, skip
/// underscores, defer decimal texts with a point or exponent to the float
/// decoder, and validate the trailing suffix.
pub fn int_lit(s: &str) -> (r: Decoded<IntLit>)
    ensures
        r == spec_int_lit(s.spec_bytes()),
{
    let b: &[u8] = s.as_bytes();
    let ghost bs: Seq<u8> = s.spec_bytes();
    let b0 = byte(b, 0);
    let b1 = byte(b, 1);
    let base: u64;
    let start: usize;
    if b0 == B_0 && (b1 == B_LOW_X || b1 == B_UP_X) {
        base = 16;
        start = 2;
    } else if b0 == B_0 && b1 == B_LOW_O {
        base = 8;
        start = 2;
    } else if b0 == B_0 && b1 == B_LOW_B {
        base = 2;
        start = 2;
    } else if B_0 <= b0 && b0 <= B_9 {
        base = 10;
        start = 0;
        proof {
            assert(bs.skip(0) =~= bs);
        }
    } else {
        return Decoded::NotApplicable;
    }
    let n = b.len();
    let mut i = start;
    let mut val: Option<u64> = Some(0);
    loop
        invariant
            start <= i <= n,
            n == bs.len(),
            b@ == bs,
            bs == s.spec_bytes(),
            base == 2 || base == 8 || base == 10 || base == 16,
            spec_int_lit(bs) == spec_int_digits(bs.skip(i as int), base, val),
        decreases n - i,
    {
        if i >= n {
            return int_finish_at(b, i, val);
        }
        let c = b[i];
        proof {
            assert(bs.skip(i as int)[0] == bs[i as int]);
            assert(bs.skip(i as int).skip(1) =~= bs.skip(i as int + 1));
        }
        if B_0 <= c && c <= B_9 {
            let d = (c - B_0) as u64;
            if d >= base {
                return Decoded::Malformed;
            }
            val = checked_step(val, base, d);
        } else if base > 10 && B_LOW_A <= c && c <= B_LOW_F {
            let d = (10 + (c - B_LOW_A)) as u64;
            val = checked_step(val, base, d);
        } else if base > 10 && B_UP_A <= c && c <= B_UP_F {
            let d = (10 + (c - B_UP_A)) as u64;
            val = checked_step(val, base, d);
        } else if c == B_UNDERSCORE {
        } else if base == 10 && (c == B_DOT || c == B_LOW_E || c == B_UP_E) {
            return Decoded::NotApplicable;
        } else {
            return int_finish_at(b, i, val);
        }
        i = i + 1;
    }
}

/// The end of the digit scan: the bytes from `i` on must be a valid suffix.
fn int_finish_at(s: &[u8], i: usize, val: Option<u64>) -> (r: Decoded<IntLit>)
    requires
        i <= s@.len(),
    ensures
        r == spec_int_finish(s@.skip(i as int), val),
{
    match int_suffix_at(s, i) {
        Some(sx) => Decoded::Value(IntLit { val, suffix: sx }),
        None => Decoded::NotApplicable,
    }
}

/// Relies on char::from_u32: it returns `Some` exactly when the code point
/// is a Unicode scalar value (not a surrogate and at most 0x10FFFF), and the
/// returned character is that code point.
#[verifier::external_body]
fn char_from_u32(code: u32) -> (r: Option<char>)
    ensures
        match r {
            Some(c) => is_unicode_scalar(code) && c as u32 == code,
            None => !is_unicode_scalar(code),
        },
{
    char::from_u32(code)
}

/// Relies on String::push: it appends exactly the given character.
#[verifier::external_body]
fn push_char(s: &mut String, c: char)
    ensures
        final(s)@ == old(s)@.push(c),
{
    s.push(c);
}

/// Whether `c` has the Unicode `White_Space` property.
fn ws_char(c: char) -> (r: bool)
    ensures
        r == is_ws_char(c),
{
    let u = c as u32;
    u == 0x09 || u == 0x0a || u == 0x0b || u == 0x0c || u == 0x0d || u == 0x20 || u == 0x85
        || u == 0xa0 || u == 0x1680 || (0x2000 <= u && u <= 0x200a) || u == 0x2028 || u == 0x2029
        || u == 0x202f || u == 0x205f || u == 0x3000
}

/// Whether the byte `b`, read as a character, has the `White_Space` property.
fn ws_byte(b: u8) -> (r: bool)
    ensures
        r == is_ws_byte(b),
{
    b == B_TAB || b == B_NL || b == B_VT || b == B_FF || b == B_CR || b == B_SPACE || b == B_NEL
        || b == B_NBSP
}

/// The value of one hexadecimal digit character.
fn hex_char(c: char) -> (r: Option<u8>)
    ensures
        r == spec_hex_char(c),
{
    let u = c as u32;
    if 0x30 <= u && u <= 0x39 {
        Some((u - 0x30) as u8)
    } else if 0x61 <= u && u <= 0x66 {
        Some((u - 0x61 + 10) as u8)
    } else if 0x41 <= u && u <= 0x46 {
        Some((u - 0x41 + 10) as u8)
    } else {
        None
    }
}

/// The value of one hexadecimal digit byte.
fn hex_byte(b: u8) -> (r: Option<u8>)
    ensures
        r == spec_hex_byte(b),
{
    if B_0 <= b && b <= B_9 {
        Some(b - B_0)
    } else if B_LOW_A <= b && b <= B_LOW_F {
        Some(b - B_LOW_A + 10)
    } else if B_UP_A <= b && b <= B_UP_F {
        Some(b - B_UP_A + 10)
    } else {
        None
    }
}

/// The character meant by a single-character escape.
fn simple_escape_char(e: char) -> (r: Option<char>)
    ensures
        r == spec_simple_escape_char(e),
{
    if e == 'n' {
        Some('\n')
    } else if e == 'r' {
        Some('\r')
    } else if e == 't' {
        Some('\t')
    } else if e == '\\' {
        Some('\\')
    } else if e == '0' {
        Some('\0')
    } else if e == '\'' {
        Some('\'')
    } else if e == '"' {
        Some('"')
    } else {
        None
    }
}

/// The byte meant by a single-character escape in a byte or byte-string
/// literal.
fn simple_escape_byte(e: u8) -> (r: Option<u8>)
    ensures
        r == spec_simple_escape_byte(e),
{
    if e == B_LOW_N {
        Some(B_NL)
    } else if e == B_LOW_R {
        Some(B_CR)
    } else if e == B_LOW_T {
        Some(B_TAB)
    } else if e == B_BACKSLASH {
        Some(B_BACKSLASH)
    } else if e == B_0 {
        Some(0)
    } else if e == B_SQUOTE {
        Some(B_SQUOTE)
    } else if e == B_QUOTE {
        Some(B_QUOTE)
    } else {
        None
    }
}

/// The first character of the text, or NUL if it is empty.
pub fn next_chr(s: &str) -> (c: char)
    ensures
        c == spec_next_chr(s@),
{
    if s.is_empty() {
        '\0'
    } else {
        s.get_char(0)
    }
}

/// If the text begins with `///` or `/**`, it is an outer doc comment and is
/// returned unchanged; callers strip the markers themselves.
pub fn outer_doc(s: String) -> (r: Option<String>)
    ensures
        match r {
            Some(t) => is_outer_doc(s@) && t@ == s@,
            None => !is_outer_doc(s@),
        },
{
    if s.as_str().unicode_len() >= 3 {
        let a = s.as_str().get_char(0);
        let b = s.as_str().get_char(1);
        let c = s.as_str().get_char(2);
        if a == '/' && ((b == '/' && c == '/') || (b == '*' && c == '*')) {
            return Some(s);
        }
    }
    None
}

/// If the text begins with `//!` or `/*!`, it is an inner doc comment and is
/// returned unchanged; callers strip the markers themselves.
pub fn inner_doc(s: String) -> (r: Option<String>)
    ensures
        match r {
            Some(t) => is_inner_doc(s@) && t@ == s@,
            None => !is_inner_doc(s@),
        },
{
    if s.as_str().unicode_len() >= 3 {
        let a = s.as_str().get_char(0);
        let b = s.as_str().get_char(1);
        let c = s.as_str().get_char(2);
        if a == '/' && ((b == '/' && c == '!') || (b == '*' && c == '!')) {
            return Some(s);
        }
    }
    None
}

/// Decode the two hexadecimal digit bytes of a `\x` escape at the head of
/// `s`, yielding the rest of the input and the encoded byte.  `None` when a
/// digit is missing or not hexadecimal, which breaks the literal grammar.
pub fn backslash_x<'a>(s: &'a [u8]) -> (r: Option<(&'a [u8], u8)>)
    ensures
        match (r, spec_backslash_x_bytes(s@)) {
            (Some(p), Some(v)) => p.1 == v && p.0@ == s@.skip(2),
            (None, None) => true,
            _ => false,
        },
{
    let h = match hex_byte(byte(s, 0)) {
        Some(h) => h,
        None => {
            return None;
        },
    };
    let l = match hex_byte(byte(s, 1)) {
        Some(l) => l,
        None => {
            return None;
        },
    };
    let rest = vstd::slice::slice_subrange(s, 2, s.len());
    proof {
        assert(s@.subrange(2, s@.len() as int) =~= s@.skip(2));
    }
    Some((rest, h * 16 + l))
}

proof fn lemma_first_quote_some(s: Seq<char>, i: int)
    requires
        0 <= i < s.len(),
        s[i] == '"',
        forall|j: int| 0 <= j < i ==> s[j] != '"',
    ensures
        spec_first_quote(s) == Some(i),
    decreases i,
{
    if i > 0 {
        assert(s[0] != '"');
        assert forall|j: int| 0 <= j < i - 1 implies s.skip(1)[j] != '"' by {
            assert(s.skip(1)[j] == s[j + 1]);
        }
        lemma_first_quote_some(s.skip(1), i - 1);
    }
}

proof fn lemma_first_quote_none(s: Seq<char>)
    requires
        forall|j: int| 0 <= j < s.len() ==> s[j] != '"',
    ensures
        spec_first_quote(s) is None,
    decreases s.len(),
{
    if s.len() > 0 {
        assert forall|j: int| 0 <= j < s.len() - 1 implies s.skip(1)[j] != '"' by {
            assert(s.skip(1)[j] == s[j + 1]);
        }
        lemma_first_quote_none(s.skip(1));
    }
}

proof fn lemma_last_quote_some(s: Seq<char>, i: int)
    requires
        0 <= i < s.len(),
        s[i] == '"',
        forall|j: int| i < j < s.len() ==> s[j] != '"',
    ensures
        spec_last_quote(s) == Some(i),
    decreases s.len(),
{
    if i < s.len() - 1 {
        assert(s[s.len() - 1] != '"');
        assert forall|j: int| i < j < s.len() - 1 implies s.drop_last()[j] != '"' by {
            assert(s.drop_last()[j] == s[j]);
        }
        lemma_last_quote_some(s.drop_last(), i);
    }
}

proof fn lemma_first_quote_byte_some(s: Seq<u8>, i: int)
    requires
        0 <= i < s.len(),
        s[i] == B_QUOTE,
        forall|j: int| 0 <= j < i ==> s[j] != B_QUOTE,
    ensures
        spec_first_quote_byte(s) == Some(i),
    decreases i,
{
    if i > 0 {
        assert(s[0] != B_QUOTE);
        assert forall|j: int| 0 <= j < i - 1 implies s.skip(1)[j] != B_QUOTE by {
            assert(s.skip(1)[j] == s[j + 1]);
        }
        lemma_first_quote_byte_some(s.skip(1), i - 1);
    }
}

proof fn lemma_first_quote_byte_none(s: Seq<u8>)
    requires
        forall|j: int| 0 <= j < s.len() ==> s[j] != B_QUOTE,
    ensures
        spec_first_quote_byte(s) is None,
    decreases s.len(),
{
    if s.len() > 0 {
        assert forall|j: int| 0 <= j < s.len() - 1 implies s.skip(1)[j] != B_QUOTE by {
            assert(s.skip(1)[j] == s[j + 1]);
        }
        lemma_first_quote_byte_none(s.skip(1));
    }
}

proof fn lemma_last_quote_byte_some(s: Seq<u8>, i: int)
    requires
        0 <= i < s.len(),
        s[i] == B_QUOTE,
        forall|j: int| i < j < s.len() ==> s[j] != B_QUOTE,
    ensures
        spec_last_quote_byte(s) == Some(i),
    decreases s.len(),
{
    if i < s.len() - 1 {
        assert(s[s.len() - 1] != B_QUOTE);
        assert forall|j: int| i < j < s.len() - 1 implies s.drop_last()[j] != B_QUOTE by {
            assert(s.drop_last()[j] == s[j]);
        }
        lemma_last_quote_byte_some(s.drop_last(), i);
    }
}

/// The position of the first `"` in the text, if any.
fn find_first_quote(s: &str) -> (r: Option<usize>)
    ensures
        match r {
            Some(i) => i < s@.len() && s@[i as int] == '"' && forall|j: int|
                0 <= j < i ==> s@[j] != '"',
            None => forall|j: int| 0 <= j < s@.len() ==> s@[j] != '"',
        },
{
    let n = s.unicode_len();
    let mut i: usize = 0;
    loop
        invariant
            i <= n,
            n == s@.len(),
            forall|j: int| 0 <= j < i ==> s@[j] != '"',
        decreases n - i,
    {
        if i >= n {
            return None;
        }
        if s.get_char(i) == '"' {
            return Some(i);
        }
        i = i + 1;
    }
}

/// The position of the last `"` in the text, if any.
fn find_last_quote(s: &str) -> (r: Option<usize>)
    ensures
        match r {
            Some(i) => i < s@.len() && s@[i as int] == '"' && forall|j: int|
                i < j < s@.len() ==> s@[j] != '"',
            None => forall|j: int| 0 <= j < s@.len() ==> s@[j] != '"',
        },
{
    let n = s.unicode_len();
    let mut i: usize = n;
    loop
        invariant
            i <= n,
            n == s@.len(),
            forall|j: int| i <= j < n ==> s@[j] != '"',
        decreases i,
    {
        if i == 0 {
            return None;
        }
        if s.get_char(i - 1) == '"' {
            return Some(i - 1);
        }
        i = i - 1;
    }
}

/// Extract the content of a raw string literal from its full token text:
/// the text strictly between the first and the last `"`, verbatim.  `None`
/// when the token does not hold two distinct quotes, which only a malformed
/// raw literal lacks.
pub fn raw_str<'a>(s: &'a str) -> (r: Option<&'a str>)
    ensures
        match (r, spec_raw_content(s@)) {
            (Some(t), Some(c)) => t@ == c,
            (None, None) => true,
            _ => false,
        },
{
    let fq = match find_first_quote(s) {
        Some(b) => b,
        None => {
            proof {
                lemma_first_quote_none(s@);
            }
            return None;
        },
    };
    let lq = match find_last_quote(s) {
        Some(e) => e,
        None => {
            proof {
                assert(false);
            }
            return None;
        },
    };
    proof {
        lemma_first_quote_some(s@, fq as int);
        lemma_last_quote_some(s@, lq as int);
    }
    if fq < lq {
        Some(s.substring_char(fq + 1, lq))
    } else {
        None
    }
}

/// Decode a `\u{...}` escape at the head of `s`, which starts just after
/// the `u`: an opening brace, up to six hexadecimal digits and the closing
/// brace; the code point must be a Unicode scalar value.  Yields the rest of
/// the input and the character; `None` breaks the literal grammar.
pub fn backslash_u<'a>(s: &'a str) -> (r: Option<(&'a str, char)>)
    ensures
        match (r, spec_backslash_u(s@)) {
            (Some(p), Some(q)) => p.0@ == q.0 && p.1 == q.1 && q.0.len() < s@.len(),
            (None, None) => true,
            _ => false,
        },
{
    let n = s.unicode_len();
    if n == 0 || s.get_char(0) != '{' {
        return None;
    }
    let mut j: usize = 1;
    let mut ch: u32 = 0;
    let mut k: usize = 6;
    proof {
        assert(s@.skip(1) =~= s@.skip(1));
    }
    loop
        invariant
            1 <= j <= n,
            n == s@.len(),
            k <= 6,
            s@.len() > 0 && s@[0] == '{',
            spec_bu_digits(s@.skip(1), 6, 0) == spec_bu_digits(s@.skip(j as int), k as nat, ch),
            k == 6 ==> ch == 0,
            k == 5 ==> ch < 0x10,
            k == 4 ==> ch < 0x100,
            k == 3 ==> ch < 0x1000,
            k == 2 ==> ch < 0x10000,
            k == 1 ==> ch < 0x100000,
            k == 0 ==> ch < 0x1000000,
        decreases n - j,
    {
        if j >= n {
            proof {
                assert(s@.skip(j as int).len() == 0);
            }
            return None;
        }
        let c = s.get_char(j);
        proof {
            assert(s@.skip(j as int)[0] == s@[j as int]);
            assert(s@.skip(j as int).skip(1) =~= s@.skip(j as int + 1));
        }
        if c == '}' {
            let chr = match char_from_u32(ch) {
                Some(x) => x,
                None => {
                    return None;
                },
            };
            let rest = s.substring_char(j + 1, n);
            proof {
                assert(rest@ =~= s@.skip(j as int + 1));
                vstd::utf8::char_u32_cast(chr, ch);
            }
            return Some((rest, chr));
        }
        if k == 0 {
            return None;
        }
        let d = match hex_char(c) {
            Some(d) => d,
            None => {
                return None;
            },
        };
        ch = ch * 16 + (d as u32);
        k = k - 1;
        j = j + 1;
    }
}

/// Decode a character literal: an opening `'`, one plain character or one
/// escape, and the closing quote.
pub fn char_lit(s: &str) -> (r: Decoded<char>)
    ensures
        r == spec_char_lit(s@),
{
    let n = s.unicode_len();
    if n == 0 || s.get_char(0) != '\'' {
        return Decoded::NotApplicable;
    }
    let t = s.substring_char(1, n);
    proof {
        assert(t@ =~= s@.skip(1));
    }
    let m = n - 1;
    if m == 0 {
        return Decoded::Malformed;
    }
    let rest: &str;
    let ch: char;
    let c0 = t.get_char(0);
    if c0 == '\\' {
        if m < 2 {
            return Decoded::Malformed;
        }
        let e = t.get_char(1);
        let rest0 = t.substring_char(2, m);
        proof {
            assert(rest0@ =~= t@.skip(2));
        }
        if e == 'x' {
            let rn = rest0.unicode_len();
            if rn < 2 {
                return Decoded::Malformed;
            }
            let h = match hex_char(rest0.get_char(0)) {
                Some(h) => h,
                None => {
                    return Decoded::Malformed;
                },
            };
            let l = match hex_char(rest0.get_char(1)) {
                Some(l) => l,
                None => {
                    return Decoded::Malformed;
                },
            };
            let v = h * 16 + l;
            if v > 0x80 {
                return Decoded::Malformed;
            }
            let chr = match char_from_u32(v as u32) {
                Some(x) => x,
                None => {
                    proof {
                        assert(false);
                    }
                    return Decoded::Malformed;
                },
            };
            proof {
                vstd::utf8::char_u32_cast(chr, v as u32);
            }
            rest = rest0.substring_char(2, rn);
            proof {
                assert(rest@ =~= rest0@.skip(2));
            }
            ch = chr;
        } else if e == 'u' {
            match backslash_u(rest0) {
                Some(p) => {
                    rest = p.0;
                    ch = p.1;
                },
                None => {
                    return Decoded::Malformed;
                },
            }
        } else {
            match simple_escape_char(e) {
                Some(x) => {
                    rest = rest0;
                    ch = x;
                },
                None => {
                    return Decoded::Malformed;
                },
            }
        }
    } else {
        rest = t.substring_char(1, m);
        proof {
            assert(rest@ =~= t@.skip(1));
        }
        ch = c0;
    }
    let rl = rest.unicode_len();
    if rl == 1 && rest.get_char(0) == '\'' {
        Decoded::Value(ch)
    } else {
        Decoded::Malformed
    }
}

/// Decode a byte literal: an opening `b'`, one plain byte or one escape
/// (with no `\u` form), and the closing quote.
pub fn byte_lit(s: &str) -> (r: Decoded<u8>)
    ensures
        r == spec_byte_lit(s.spec_bytes()),
{
    let b: &[u8] = s.as_bytes();
    if byte(b, 0) != B_LOW_B || byte(b, 1) != B_SQUOTE {
        return Decoded::NotApplicable;
    }
    let t = vstd::slice::slice_subrange(b, 2, b.len());
    proof {
        assert(t@ =~= b@.skip(2));
    }
    let m = t.len();
    if m == 0 {
        return Decoded::Malformed;
    }
    let rest: &[u8];
    let v: u8;
    if t[0] == B_BACKSLASH {
        if m < 2 {
            return Decoded::Malformed;
        }
        let e = t[1];
        let rest0 = vstd::slice::slice_subrange(t, 2, m);
        proof {
            assert(rest0@ =~= t@.skip(2));
        }
        if e == B_LOW_X {
            match backslash_x(rest0) {
                Some(p) => {
                    rest = p.0;
                    v = p.1;
                },
                None => {
                    return Decoded::Malformed;
                },
            }
        } else {
            match simple_escape_byte(e) {
                Some(x) => {
                    rest = rest0;
                    v = x;
                },
                None => {
                    return Decoded::Malformed;
                },
            }
        }
    } else {
        rest = vstd::slice::slice_subrange(t, 1, m);
        proof {
            assert(rest@ =~= t@.skip(1));
        }
        v = t[0];
    }
    if byte(rest, 0) == B_SQUOTE {
        Decoded::Value(v)
    } else {
        Decoded::Malformed
    }
}

/// The position of the first `"` byte, if any.
fn find_first_quote_b(s: &[u8]) -> (r: Option<usize>)
    ensures
        match r {
            Some(i) => i < s@.len() && s@[i as int] == B_QUOTE && forall|j: int|
                0 <= j < i ==> s@[j] != B_QUOTE,
            None => forall|j: int| 0 <= j < s@.len() ==> s@[j] != B_QUOTE,
        },
{
    let n = s.len();
    let mut i: usize = 0;
    loop
        invariant
            i <= n,
            n == s@.len(),
            forall|j: int| 0 <= j < i ==> s@[j] != B_QUOTE,
        decreases n - i,
    {
        if i >= n {
            return None;
        }
        if s[i] == B_QUOTE {
            return Some(i);
        }
        i = i + 1;
    }
}

/// The position of the last `"` byte, if any.
fn find_last_quote_b(s: &[u8]) -> (r: Option<usize>)
    ensures
        match r {
            Some(i) => i < s@.len() && s@[i as int] == B_QUOTE && forall|j: int|
                i < j < s@.len() ==> s@[j] != B_QUOTE,
            None => forall|j: int| 0 <= j < s@.len() ==> s@[j] != B_QUOTE,
        },
{
    let n = s.len();
    let mut i: usize = n;
    loop
        invariant
            i <= n,
            n == s@.len(),
            forall|j: int| i <= j < n ==> s@[j] != B_QUOTE,
        decreases i,
    {
        if i == 0 {
            return None;
        }
        if s[i - 1] == B_QUOTE {
            return Some(i - 1);
        }
        i = i - 1;
    }
}

/// Extract the content of a raw byte-string literal from its full token
/// text: the bytes strictly between the first and the last `"`, verbatim.
fn raw_bytes<'a>(s: &'a [u8]) -> (r: Option<&'a [u8]>)
    ensures
        match (r, spec_raw_content_bytes(s@)) {
            (Some(t), Some(c)) => t@ == c,
            (None, None) => true,
            _ => false,
        },
{
    let fq = match find_first_quote_b(s) {
        Some(b) => b,
        None => {
            proof {
                lemma_first_quote_byte_none(s@);
            }
            return None;
        },
    };
    let lq = match find_last_quote_b(s) {
        Some(e) => e,
        None => {
            proof {
                assert(false);
            }
            return None;
        },
    };
    proof {
        lemma_first_quote_byte_some(s@, fq as int);
        lemma_last_quote_byte_some(s@, lq as int);
    }
    if fq < lq {
        Some(vstd::slice::slice_subrange(s, fq + 1, lq))
    } else {
        None
    }
}

/// Decode a string literal.  A leading `"` opens a quoted string: plain
/// characters are copied through, escapes are decoded, `\x` values above
/// 0x80 are refused, a backslash before a line break elides the break and
/// the following whitespace, and the scan must end exactly on the closing
/// quote.  A leading `r` marks a raw string whose content is taken verbatim.
pub fn str_lit(s: &str) -> (r: Decoded<String>)
    ensures
        r@ == spec_str_lit(s@),
{
    let n = s.unicode_len();
    if n == 0 {
        return Decoded::NotApplicable;
    }
    let c0 = s.get_char(0);
    if c0 == 'r' {
        return match raw_str(s) {
            Some(inner) => Decoded::Value(inner.to_owned()),
            None => Decoded::Malformed,
        };
    }
    if c0 != '"' {
        return Decoded::NotApplicable;
    }
    let mut rem: &str = s.substring_char(1, n);
    proof {
        assert(rem@ =~= s@.skip(1));
    }
    let mut out = String::new();
    loop
        invariant
            spec_str_lit(s@) == spec_str_body(rem@, out@),
        decreases rem@.len(),
    {
        let m = rem.unicode_len();
        if m == 0 {
            return Decoded::Malformed;
        }
        let c = rem.get_char(0);
        if c == '"' {
            if m == 1 {
                return Decoded::Value(out);
            }
            return Decoded::Malformed;
        } else if c == '\\' {
            if m < 2 {
                return Decoded::Malformed;
            }
            let e = rem.get_char(1);
            let rest = rem.substring_char(2, m);
            proof {
                assert(rest@ =~= rem@.skip(2));
            }
            if e == 'x' {
                let rn = rest.unicode_len();
                if rn < 2 {
                    return Decoded::Malformed;
                }
                let h = match hex_char(rest.get_char(0)) {
                    Some(h) => h,
                    None => {
                        return Decoded::Malformed;
                    },
                };
                let l = match hex_char(rest.get_char(1)) {
                    Some(l) => l,
                    None => {
                        return Decoded::Malformed;
                    },
                };
                let v = h * 16 + l;
                if v > 0x80 {
                    return Decoded::Malformed;
                }
                let chr = match char_from_u32(v as u32) {
                    Some(x) => x,
                    None => {
                        proof {
                            assert(false);
                        }
                        return Decoded::Malformed;
                    },
                };
                proof {
                    vstd::utf8::char_u32_cast(chr, v as u32);
                }
                push_char(&mut out, chr);
                let rem2 = rest.substring_char(2, rn);
                proof {
                    assert(rem2@ =~= rest@.skip(2));
                }
                rem = rem2;
            } else if e == 'u' {
                match backslash_u(rest) {
                    Some(p) => {
                        push_char(&mut out, p.1);
                        rem = p.0;
                    },
                    None => {
                        return Decoded::Malformed;
                    },
                }
            } else if e == '\r' || e == '\n' {
                let mut wrem: &str = rest;
                loop
                    invariant_except_break
                        spec_str_lit(s@) == spec_str_ws(wrem@, out@),
                        wrem@.len() + 2 <= rem@.len(),
                    ensures
                        spec_str_lit(s@) == spec_str_body(wrem@, out@),
                        wrem@.len() < rem@.len(),
                    decreases wrem@.len(),
                {
                    let wm = wrem.unicode_len();
                    if wm == 0 {
                        return Decoded::Malformed;
                    }
                    let wc = wrem.get_char(0);
                    if ws_char(wc) {
                        let wnext = wrem.substring_char(1, wm);
                        proof {
                            assert(wnext@ =~= wrem@.skip(1));
                        }
                        wrem = wnext;
                    } else {
                        break ;
                    }
                }
                rem = wrem;
            } else {
                match simple_escape_char(e) {
                    Some(x) => {
                        push_char(&mut out, x);
                        rem = rest;
                    },
                    None => {
                        return Decoded::Malformed;
                    },
                }
            }
        } else if c == '\r' {
            if m >= 2 && rem.get_char(1) == '\n' {
                push_char(&mut out, '\n');
                let rem2 = rem.substring_char(2, m);
                proof {
                    assert(rem2@ =~= rem@.skip(2));
                }
                rem = rem2;
            } else {
                return Decoded::Malformed;
            }
        } else {
            push_char(&mut out, c);
            let rem2 = rem.substring_char(1, m);
            proof {
                assert(rem2@ =~= rem@.skip(1));
            }
            rem = rem2;
        }
    }
}

/// Decode a byte-string literal.  A leading `b"` opens a quoted byte
/// string, scanned like a quoted string over raw bytes: `\x` takes the full
/// byte range and there is no `\u` escape.  A leading `br` marks a raw byte
/// string whose content is taken verbatim.
pub fn byte_str_lit(s: &str) -> (r: Decoded<Vec<u8>>)
    ensures
        r@ == spec_byte_str_lit(s.spec_bytes()),
{
    let b: &[u8] = s.as_bytes();
    let b0 = byte(b, 0);
    let b1 = byte(b, 1);
    if b0 == B_LOW_B && b1 == B_QUOTE {
        let mut rem: &[u8] = vstd::slice::slice_subrange(b, 2, b.len());
        proof {
            assert(rem@ =~= b@.skip(2));
        }
        let mut out: Vec<u8> = Vec::new();
        loop
            invariant
                spec_byte_str_lit(s.spec_bytes()) == spec_byte_body(rem@, out@),
            decreases rem@.len(),
        {
            let m = rem.len();
            if m == 0 {
                return Decoded::Malformed;
            }
            let c = rem[0];
            if c == B_QUOTE {
                if m == 1 {
                    return Decoded::Value(out);
                }
                return Decoded::Malformed;
            } else if c == B_BACKSLASH {
                if m < 2 {
                    return Decoded::Malformed;
                }
                let e = rem[1];
                let rest = vstd::slice::slice_subrange(rem, 2, m);
                proof {
                    assert(rest@ =~= rem@.skip(2));
                }
                if e == B_LOW_X {
                    match backslash_x(rest) {
                        Some(p) => {
                            out.push(p.1);
                            rem = p.0;
                        },
                        None => {
                            return Decoded::Malformed;
                        },
                    }
                } else if e == B_CR || e == B_NL {
                    let mut wrem: &[u8] = rest;
                    loop
                        invariant_except_break
                            spec_byte_str_lit(s.spec_bytes()) == spec_byte_ws(wrem@, out@),
                            wrem@.len() + 2 <= rem@.len(),
                        ensures
                            spec_byte_str_lit(s.spec_bytes()) == spec_byte_body(wrem@, out@),
                            wrem@.len() < rem@.len(),
                        decreases wrem@.len(),
                    {
                        let wm = wrem.len();
                        if wm == 0 {
                            return Decoded::Malformed;
                        }
                        let wc = wrem[0];
                        if ws_byte(wc) {
                            let wnext = vstd::slice::slice_subrange(wrem, 1, wm);
                            proof {
                                assert(wnext@ =~= wrem@.skip(1));
                            }
                            wrem = wnext;
                        } else {
                            break ;
                        }
                    }
                    rem = wrem;
                } else {
                    match simple_escape_byte(e) {
                        Some(x) => {
                            out.push(x);
                            rem = rest;
                        },
                        None => {
                            return Decoded::Malformed;
                        },
                    }
                }
            } else if c == B_CR {
                if m >= 2 && rem[1] == B_NL {
                    out.push(B_NL);
                    let rem2 = vstd::slice::slice_subrange(rem, 2, m);
                    proof {
                        assert(rem2@ =~= rem@.skip(2));
                    }
                    rem = rem2;
                } else {
                    return Decoded::Malformed;
                }
            } else {
                out.push(c);
                let rem2 = vstd::slice::slice_subrange(rem, 1, m);
                proof {
                    assert(rem2@ =~= rem@.skip(1));
                }
                rem = rem2;
            }
        }
    } else if b0 == B_LOW_B && b1 == B_LOW_R {
        match raw_bytes(b) {
            Some(inner) => Decoded::Value(vstd::slice::slice_to_vec(inner)),
            None => Decoded::Malformed,
        }
    } else {
        Decoded::NotApplicable
    }
}

proof fn lemma_removed_step(t: Seq<char>, remove: u8, i: int)
    requires
        0 <= i < t.len(),
    ensures
        spec_removed(t.take(i + 1), remove) == if t[i] as u32 != remove as u32 {
            spec_removed(t.take(i), remove).push(t[i])
        } else {
            spec_removed(t.take(i), remove)
        },
{
    reveal_with_fuel(Seq::filter, 2);
    assert(t.take(i + 1).drop_last() =~= t.take(i));
    assert(t.take(i + 1).last() == t[i]);
}

/// Filter the input string, removing every occurrence of the given ASCII
/// character.
pub fn string_filter(string: String, remove: u8) -> (r: String)
    requires
        remove <= 0x7f,
    ensures
        r@ == spec_removed(string@, remove),
{
    let st: &str = string.as_str();
    let n = st.unicode_len();
    let mut out = String::new();
    let mut i: usize = 0;
    proof {
        assert(string@.take(0) =~= Seq::<char>::empty());
        assert(spec_removed(string@.take(0), remove) =~= Seq::<char>::empty());
    }
    loop
        invariant
            i <= n,
            n == string@.len(),
            st@ == string@,
            remove <= 0x7f,
            out@ == spec_removed(string@.take(i as int), remove),
        decreases n - i,
    {
        if i >= n {
            proof {
                assert(string@.take(n as int) =~= string@);
            }
            return out;
        }
        let c = st.get_char(i);
        proof {
            lemma_removed_step(string@, remove, i as int);
        }
        if (c as u32) != (remove as u32) {
            push_char(&mut out, c);
        }
        i = i + 1;
    }
}

/// The suffix of a float literal, read from offset `i` to the end.
fn float_suffix_at(s: &str, i: usize) -> (r: Option<FloatSuffix>)
    requires
        i <= s@.len(),
    ensures
        r == spec_float_suffix(s@.skip(i as int)),
{
    let n = s.unicode_len();
    let m = n - i;
    if m == 0 {
        Some(FloatSuffix::Empty)
    } else if m == 3 && s.get_char(i) == 'f' && s.get_char(i + 1) == '3' && s.get_char(i + 2)
        == '2' {
        Some(FloatSuffix::F32)
    } else if m == 3 && s.get_char(i) == 'f' && s.get_char(i + 1) == '6' && s.get_char(i + 2)
        == '4' {
        Some(FloatSuffix::F64)
    } else {
        None
    }
}

/// The end of the float scan: the remainder must be a valid suffix, a text
/// with neither point, exponent nor suffix is an integer in disguise, and
/// an exponent with more than one sign cannot be converted.
fn float_finish(ft: &str, i: usize, has_dot: bool, has_exp: bool, signs: usize) -> (r: Decoded<
    FloatParts,
>)
    requires
        i <= ft@.len(),
    ensures
        r@ == spec_float_finish(ft@, i as int, has_dot, has_exp, signs as int),
{
    let sx = match float_suffix_at(ft, i) {
        Some(sx) => sx,
        None => {
            return Decoded::NotApplicable;
        },
    };
    if !has_dot && !has_exp && sx == FloatSuffix::Empty {
        return Decoded::NotApplicable;
    }
    if signs >= 2 {
        return Decoded::Malformed;
    }
    let number = ft.substring_char(0, i).to_owned();
    proof {
        assert(ft@.subrange(0, i as int) =~= ft@.take(i as int));
    }
    Decoded::Value(FloatParts { number, suffix: sx })
}

/// Decode a float literal into its scanned parts: a text with a base prefix
/// or without a leading decimal digit is not a float; otherwise underscores
/// are stripped, the significand, at most one decimal point and an optional
/// exponent are scanned, and the trailing suffix is validated.  The numeric
/// text is returned ready for decimal-to-binary conversion, together with
/// the suffix.
pub fn float_lit(input: String) -> (r: Decoded<FloatParts>)
    ensures
        r@ == spec_float_lit(input@),
{
    let n0 = input.as_str().unicode_len();
    if n0 == 0 {
        return Decoded::NotApplicable;
    }
    let c0 = input.as_str().get_char(0);
    if n0 >= 2 && c0 == '0' {
        let c1 = input.as_str().get_char(1);
        if c1 == 'x' || c1 == 'o' || c1 == 'b' {
            return Decoded::NotApplicable;
        }
    }
    let u0 = c0 as u32;
    if !(0x30 <= u0 && u0 <= 0x39) {
        return Decoded::NotApplicable;
    }
    let ghost orig: Seq<char> = input@;
    let filtered: String = string_filter(input, B_UNDERSCORE);
    let ft: &str = filtered.as_str();
    let n = ft.unicode_len();
    let mut i: usize = 0;
    let mut has_dot = false;
    loop
        invariant
            i <= n,
            n == ft@.len(),
            orig == input@,
            ft@ == strip_underscores(orig),
            spec_float_lit(orig) == spec_float_scan(ft@, i as int, has_dot),
        decreases n - i,
    {
        if i >= n {
            return float_finish(ft, i, has_dot, false, 0);
        }
        let c = ft.get_char(i);
        let u = c as u32;
        if 0x30 <= u && u <= 0x39 {
            i = i + 1;
        } else if c == '.' {
            if has_dot {
                return Decoded::Malformed;
            }
            has_dot = true;
            i = i + 1;
        } else if c == 'e' || c == 'E' {
            let mut j = i + 1;
            let mut signs: usize = 0;
            let mut has_digit = false;
            loop
                invariant
                    j <= n,
                    n == ft@.len(),
                    orig == input@,
                    ft@ == strip_underscores(orig),
                    signs <= j,
                    spec_float_lit(orig) == spec_float_exp(
                        ft@,
                        j as int,
                        has_dot,
                        signs as int,
                        has_digit,
                    ),
                decreases n - j,
            {
                if j >= n {
                    if has_digit {
                        return float_finish(ft, j, has_dot, true, signs);
                    }
                    return Decoded::Malformed;
                }
                let c2 = ft.get_char(j);
                let u2 = c2 as u32;
                if (c2 == '+' || c2 == '-') && !has_digit {
                    signs = signs + 1;
                    j = j + 1;
                } else if 0x30 <= u2 && u2 <= 0x39 {
                    has_digit = true;
                    j = j + 1;
                } else if c2 == '_' {
                    j = j + 1;
                } else {
                    if has_digit {
                        return float_finish(ft, j, has_dot, true, signs);
                    }
                    return Decoded::Malformed;
                }
            }
        } else {
            return float_finish(ft, i, has_dot, false, 0);
        }
    }
}

/// One step of digit accumulation with overflow latched to `None`.
fn checked_step(val: Option<u64>, base: u64, d: u64) -> (r: Option<u64>)
    ensures
        r == spec_int_step(val, base, d),
{
    match val {
        Some(v) => match v.checked_mul(base) {
            Some(x) => x.checked_add(d),
            None => None,
        },
        None => None,
    }
}

} // verus!

