//! Laws of the decoders that relate several runs or inputs, proved once and
//! for all inputs.

use vstd::prelude::*;
use vstd::string::StringSliceAdditionalSpecFns;

use crate::Decoded;
use crate::IntLit;
use crate::IntSuffix;
use crate::int_extract;
use crate::model::B_0;
use crate::model::B_UNDERSCORE;
use crate::model::is_dec_digit;
use crate::model::spec_int_digits;
use crate::model::spec_int_lit;
use crate::model::spec_int_step;
use crate::model::spec_int_suffix;
use crate::model::is_dec_char;
use crate::model::spec_float_scan;
use crate::model::B_DOT;
use crate::model::B_LOW_E;
use crate::model::B_UP_E;
use crate::model::spec_removed;
use crate::model::strip_underscores;
use crate::model::spec_float_lit;
use crate::model::B_UP_X;
use crate::model::B_LOW_U;
use crate::model::B_LOW_I;

verus! {

/// The text with its underscore bytes taken out.
pub open spec fn spec_strip_underscore_bytes(s: Seq<u8>) -> Seq<u8>
    decreases s.len(),
{
    if s.len() == 0 {
        Seq::<u8>::empty()
    } else if s[0] == B_UNDERSCORE {
        spec_strip_underscore_bytes(s.skip(1))
    } else {
        seq![s[0]] + spec_strip_underscore_bytes(s.skip(1))
    }
}

proof fn lemma_strip_all_digits(s: Seq<u8>)
    requires
        forall|j: int| 0 <= j < s.len() ==> is_dec_digit(s[j]) || s[j] == B_UNDERSCORE,
    ensures
        spec_strip_underscore_bytes(s).len() <= s.len(),
        forall|j: int|
            0 <= j < spec_strip_underscore_bytes(s).len() ==> is_dec_digit(
                spec_strip_underscore_bytes(s)[j],
            ),
    decreases s.len(),
{
    if s.len() > 0 {
        assert forall|j: int| 0 <= j < s.skip(1).len() implies is_dec_digit(s.skip(1)[j])
            || s.skip(1)[j] == B_UNDERSCORE by {
            assert(s.skip(1)[j] == s[j + 1]);
        }
        lemma_strip_all_digits(s.skip(1));
    }
}

proof fn lemma_digits_strip(s: Seq<u8>, val: Option<u64>)
    requires
        forall|j: int| 0 <= j < s.len() ==> is_dec_digit(s[j]) || s[j] == B_UNDERSCORE,
    ensures
        spec_int_digits(s, 10, val) == spec_int_digits(spec_strip_underscore_bytes(s), 10, val),
    decreases s.len(),
{
    if s.len() == 0 {
    } else {
        assert forall|j: int| 0 <= j < s.skip(1).len() implies is_dec_digit(s.skip(1)[j])
            || s.skip(1)[j] == B_UNDERSCORE by {
            assert(s.skip(1)[j] == s[j + 1]);
        }
        if s[0] == B_UNDERSCORE {
            lemma_digits_strip(s.skip(1), val);
        } else {
            let d = (s[0] - B_0) as u64;
            let val2 = spec_int_step(val, 10, d);
            lemma_digits_strip(s.skip(1), val2);
            let st = spec_strip_underscore_bytes(s);
            assert(st[0] == s[0]);
            assert(st.skip(1) =~= spec_strip_underscore_bytes(s.skip(1)));
        }
    }
}

/// Underscore separators never change a decimal integer's value: for every
/// valid decimal integer text — a leading decimal digit followed by decimal
/// digits and underscores in any arrangement — decoding yields exactly what
/// the underscore-free text yields.
pub proof fn lemma_int_underscores(s: Seq<u8>)
    requires
        s.len() >= 1,
        is_dec_digit(s[0]),
        forall|j: int| 0 <= j < s.len() ==> is_dec_digit(s[j]) || s[j] == B_UNDERSCORE,
    ensures
        spec_int_lit(s) == spec_int_lit(spec_strip_underscore_bytes(s)),
{
    let st = spec_strip_underscore_bytes(s);
    lemma_strip_all_digits(s);
    assert(st[0] == s[0]);
    if s.len() >= 2 {
        assert(is_dec_digit(s[1]) || s[1] == B_UNDERSCORE);
    }
    if st.len() >= 2 {
        assert(is_dec_digit(st[1]));
    }
    lemma_digits_strip(s, Some(0u64));
}

/// The mathematical value of a run of decimal digits with underscore
/// separators, accumulated from `acc`.
pub open spec fn spec_decimal_value(s: Seq<u8>, acc: int) -> int
    decreases s.len(),
{
    if s.len() == 0 {
        acc
    } else if s[0] == B_UNDERSCORE {
        spec_decimal_value(s.skip(1), acc)
    } else {
        spec_decimal_value(s.skip(1), acc * 10 + (s[0] - B_0))
    }
}

proof fn lemma_digits_value(s: Seq<u8>, val: Option<u64>, a: int)
    requires
        forall|j: int| 0 <= j < s.len() ==> is_dec_digit(s[j]) || s[j] == B_UNDERSCORE,
        a >= 0,
        match val {
            Some(v) => a <= u64::MAX && v == a,
            None => a > u64::MAX,
        },
    ensures
        spec_int_digits(s, 10, val) == Decoded::Value(
            IntLit {
                val: if spec_decimal_value(s, a) <= u64::MAX {
                    Some(spec_decimal_value(s, a) as u64)
                } else {
                    None
                },
                suffix: IntSuffix::Empty,
            },
        ),
    decreases s.len(),
{
    if s.len() == 0 {
    } else {
        assert forall|j: int| 0 <= j < s.skip(1).len() implies is_dec_digit(s.skip(1)[j])
            || s.skip(1)[j] == B_UNDERSCORE by {
            assert(s.skip(1)[j] == s[j + 1]);
        }
        if s[0] == B_UNDERSCORE {
            lemma_digits_value(s.skip(1), val, a);
        } else {
            let d = (s[0] - B_0) as u64;
            let a2 = a * 10 + d;
            assert(a * 10 >= a) by (nonlinear_arith)
                requires
                    a >= 0,
            ;
            lemma_digits_value(s.skip(1), spec_int_step(val, 10, d), a2);
        }
    }
}

/// Overflow latches the value to absent and nothing else: a decimal integer
/// text whose mathematical value fits in 64 bits decodes to exactly that
/// value, and one whose value exceeds 64 bits decodes to a literal whose
/// value is absent, the suffix staying valid.
pub proof fn lemma_int_overflow(s: Seq<u8>)
    requires
        s.len() >= 1,
        is_dec_digit(s[0]),
        forall|j: int| 0 <= j < s.len() ==> is_dec_digit(s[j]) || s[j] == B_UNDERSCORE,
    ensures
        spec_int_lit(s) == Decoded::Value(
            IntLit {
                val: if spec_decimal_value(s, 0) <= u64::MAX {
                    Some(spec_decimal_value(s, 0) as u64)
                } else {
                    None
                },
                suffix: IntSuffix::Empty,
            },
        ),
{
    if s.len() >= 2 {
        assert(is_dec_digit(s[1]) || s[1] == B_UNDERSCORE);
    }
    lemma_digits_value(s, Some(0u64), 0);
}

/// A literal whose value is absent extracts no value at any width: every
/// accessor answers `None` on an overflowed literal, whatever the requested
/// suffix and bound.
pub proof fn lemma_overflow_extract(l: IntLit, want: IntSuffix, max: u64)
    requires
        l.val is None,
    ensures
        int_extract(l, want, max) is None,
{
}

/// A non-empty suffix binds the literal to its own width: when the spelled
/// suffix neither is empty nor matches the requested one, every accessor
/// answers `None`, whatever the value.
pub proof fn lemma_suffix_mismatch(l: IntLit, want: IntSuffix, max: u64)
    requires
        l.suffix != IntSuffix::Empty,
        l.suffix != want,
    ensures
        int_extract(l, want, max) is None,
{
}

/// Whether a byte may stand in the digit run of a decimal integer: a
/// decimal digit or an underscore separator.
pub open spec fn is_du_byte(x: u8) -> bool {
    is_dec_digit(x) || x == B_UNDERSCORE
}

/// Whether a character may stand in the digit run of a decimal integer.
pub open spec fn is_du_char(c: char) -> bool {
    is_dec_char(c) || c == '_'
}

/// The length of the leading run of decimal digits and underscores.
pub open spec fn spec_run_du_bytes(b: Seq<u8>) -> int
    decreases b.len(),
{
    if b.len() > 0 && is_du_byte(b[0]) {
        1 + spec_run_du_bytes(b.skip(1))
    } else {
        0
    }
}

/// The length of the leading run of decimal digits and underscores.
pub open spec fn spec_run_du_chars(s: Seq<char>) -> int
    decreases s.len(),
{
    if s.len() > 0 && is_du_char(s[0]) {
        1 + spec_run_du_chars(s.skip(1))
    } else {
        0
    }
}

/// The length of the leading run of decimal digits alone.
pub open spec fn spec_run_digits_chars(t: Seq<char>) -> int
    decreases t.len(),
{
    if t.len() > 0 && is_dec_char(t[0]) {
        1 + spec_run_digits_chars(t.skip(1))
    } else {
        0
    }
}

proof fn lemma_run_du_bytes_props(b: Seq<u8>)
    ensures
        0 <= spec_run_du_bytes(b) <= b.len(),
        forall|j: int| 0 <= j < spec_run_du_bytes(b) ==> is_du_byte(b[j]),
        spec_run_du_bytes(b) < b.len() ==> !is_du_byte(b[spec_run_du_bytes(b)]),
    decreases b.len(),
{
    if b.len() > 0 && is_du_byte(b[0]) {
        lemma_run_du_bytes_props(b.skip(1));
        assert forall|j: int| 0 <= j < spec_run_du_bytes(b) implies is_du_byte(b[j]) by {
            if j > 0 {
                assert(b.skip(1)[j - 1] == b[j]);
            }
        }
        if spec_run_du_bytes(b) < b.len() {
            assert(b.skip(1)[spec_run_du_bytes(b) - 1] == b[spec_run_du_bytes(b)]);
        }
    }
}

proof fn lemma_run_digits_chars_props(t: Seq<char>)
    ensures
        0 <= spec_run_digits_chars(t) <= t.len(),
        forall|j: int| 0 <= j < spec_run_digits_chars(t) ==> is_dec_char(t[j]),
        spec_run_digits_chars(t) < t.len() ==> !is_dec_char(t[spec_run_digits_chars(t)]),
    decreases t.len(),
{
    if t.len() > 0 && is_dec_char(t[0]) {
        lemma_run_digits_chars_props(t.skip(1));
        assert forall|j: int| 0 <= j < spec_run_digits_chars(t) implies is_dec_char(t[j]) by {
            if j > 0 {
                assert(t.skip(1)[j - 1] == t[j]);
            }
        }
        if spec_run_digits_chars(t) < t.len() {
            assert(t.skip(1)[spec_run_digits_chars(t) - 1] == t[spec_run_digits_chars(t)]);
        }
    }
}

/// The decimal digit scan answers "not an integer" whenever the byte after
/// the leading digit run is a decimal point or an exponent letter.
proof fn lemma_int_scan_float_break(b: Seq<u8>, val: Option<u64>, k: int)
    requires
        0 <= k <= b.len(),
        forall|j: int| 0 <= j < k ==> is_du_byte(b[j]),
        k < b.len(),
        b[k] == B_DOT || b[k] == B_LOW_E || b[k] == B_UP_E,
    ensures
        spec_int_digits(b, 10, val) == Decoded::<IntLit>::NotApplicable,
    decreases k,
{
    if k > 0 {
        assert forall|j: int| 0 <= j < k - 1 implies is_du_byte(b.skip(1)[j]) by {
            assert(b.skip(1)[j] == b[j + 1]);
        }
        assert(b.skip(1)[k - 1] == b[k]);
        if is_dec_digit(b[0]) {
            lemma_int_scan_float_break(
                b.skip(1),
                spec_int_step(val, 10, (b[0] - B_0) as u64),
                k - 1,
            );
        } else {
            lemma_int_scan_float_break(b.skip(1), val, k - 1);
        }
    }
}

/// The decimal digit scan answers "not an integer" whenever the byte after
/// the leading digit run starts no valid integer suffix.
proof fn lemma_int_scan_bad_suffix(b: Seq<u8>, val: Option<u64>, k: int)
    requires
        0 <= k <= b.len(),
        forall|j: int| 0 <= j < k ==> is_du_byte(b[j]),
        k < b.len(),
        !is_du_byte(b[k]),
        !(b[k] == B_DOT || b[k] == B_LOW_E || b[k] == B_UP_E),
        spec_int_suffix(b.skip(k)) is None,
    ensures
        spec_int_digits(b, 10, val) == Decoded::<IntLit>::NotApplicable,
    decreases k,
{
    if k == 0 {
        assert(b.skip(0) =~= b);
    } else {
        assert forall|j: int| 0 <= j < k - 1 implies is_du_byte(b.skip(1)[j]) by {
            assert(b.skip(1)[j] == b[j + 1]);
        }
        assert(b.skip(1)[k - 1] == b[k]);
        assert(b.skip(1).skip(k - 1) =~= b.skip(k));
        if is_dec_digit(b[0]) {
            lemma_int_scan_bad_suffix(b.skip(1), spec_int_step(val, 10, (b[0] - B_0) as u64), k - 1);
        } else {
            lemma_int_scan_bad_suffix(b.skip(1), val, k - 1);
        }
    }
}

proof fn lemma_run_du_chars_props(s: Seq<char>)
    ensures
        0 <= spec_run_du_chars(s) <= s.len(),
        forall|j: int| 0 <= j < spec_run_du_chars(s) ==> is_du_char(s[j]),
        spec_run_du_chars(s) < s.len() ==> !is_du_char(s[spec_run_du_chars(s)]),
    decreases s.len(),
{
    if s.len() > 0 && is_du_char(s[0]) {
        lemma_run_du_chars_props(s.skip(1));
        assert forall|j: int| 0 <= j < spec_run_du_chars(s) implies is_du_char(s[j]) by {
            if j > 0 {
                assert(s.skip(1)[j - 1] == s[j]);
            }
        }
        if spec_run_du_chars(s) < s.len() {
            assert(s.skip(1)[spec_run_du_chars(s) - 1] == s[spec_run_du_chars(s)]);
        }
    }
}

/// The underscore filter, unfolded from the front: the head is kept exactly
/// when it is not the removed character.
proof fn lemma_removed_cons(s: Seq<char>, remove: u8)
    requires
        s.len() > 0,
    ensures
        spec_removed(s, remove) == if s[0] as u32 != remove as u32 {
            seq![s[0]] + spec_removed(s.skip(1), remove)
        } else {
            spec_removed(s.skip(1), remove)
        },
    decreases s.len(),
{
    reveal_with_fuel(Seq::filter, 2);
    if s.len() == 1 {
        assert(s.skip(1) =~= Seq::<char>::empty());
        assert(s.drop_last() =~= Seq::<char>::empty());
        if s[0] as u32 != remove as u32 {
            assert(spec_removed(s, remove) =~= seq![s[0]] + spec_removed(s.skip(1), remove));
        }
    } else {
        let dl = s.drop_last();
        let x = s.last();
        lemma_removed_cons(dl, remove);
        assert(dl[0] == s[0]);
        assert(dl.skip(1) =~= s.skip(1).drop_last());
        assert(s.skip(1).last() == x);
        let r = spec_removed(s.skip(1).drop_last(), remove);
        if s[0] as u32 != remove as u32 {
            if x as u32 != remove as u32 {
                assert(spec_removed(s, remove) == spec_removed(dl, remove).push(x));
                assert(spec_removed(s.skip(1), remove) == r.push(x));
                assert((seq![s[0]] + r).push(x) =~= seq![s[0]] + r.push(x));
            } else {
                assert(spec_removed(s, remove) == spec_removed(dl, remove));
                assert(spec_removed(s.skip(1), remove) == r);
            }
        } else {
            if x as u32 != remove as u32 {
                assert(spec_removed(s, remove) == spec_removed(dl, remove).push(x));
                assert(spec_removed(s.skip(1), remove) == r.push(x));
            } else {
                assert(spec_removed(s, remove) == spec_removed(dl, remove));
                assert(spec_removed(s.skip(1), remove) == r);
            }
        }
    }
}

/// The float scan answers "not a float" when the character after the
/// leading digit run neither opens a fraction, an exponent nor a float
/// suffix — and also when nothing but digits remains, an integer in
/// disguise.
proof fn lemma_float_scan_na(t: Seq<char>, i: int, k: int)
    requires
        0 <= i <= k <= t.len(),
        forall|j: int| i <= j < k ==> is_dec_char(t[j]),
        k == t.len() || (!is_dec_char(t[k]) && t[k] != '.' && t[k] != 'e' && t[k] != 'E' && t[k]
            != 'f'),
    ensures
        spec_float_scan(t, i, false) == Decoded::<crate::model::FloatVal>::NotApplicable,
    decreases k - i,
{
    if i == k {
        if k == t.len() {
            assert(t.skip(k).len() == 0);
        } else {
            assert(t.skip(k)[0] == t[k]);
        }
    } else {
        lemma_float_scan_na(t, i + 1, k);
    }
}

/// Two characters with the same code point are the same character.
proof fn lemma_char_is(c: char, u: u32, d: char)
    requires
        c as u32 == u,
        d as u32 == u,
    ensures
        c == d,
{
    vstd::utf8::char_u32_cast(c, u);
    vstd::utf8::char_u32_cast(d, u);
}

/// Whether `b` spells the same text as `s`, byte for character: the shape
/// of the byte view of an ASCII text.
pub open spec fn ascii_match(s: Seq<char>, b: Seq<u8>) -> bool {
    s.len() == b.len() && forall|i: int| 0 <= i < s.len() ==> (#[trigger] s[i]) as u32 == b[i] as u32
}

proof fn lemma_ascii_run(s: Seq<char>, b: Seq<u8>)
    requires
        ascii_match(s, b),
    ensures
        spec_run_du_chars(s) == spec_run_du_bytes(b),
    decreases s.len(),
{
    if s.len() > 0 {
        if s[0] == '_' {
            assert(b[0] == B_UNDERSCORE);
        }
        if b[0] == B_UNDERSCORE {
            lemma_char_is(s[0], 0x5f, '_');
        }
        assert(is_du_char(s[0]) == is_du_byte(b[0]));
        assert forall|i: int| 0 <= i < s.skip(1).len() implies (#[trigger] s.skip(1)[i]) as u32
            == b.skip(1)[i] as u32 by {
            assert(s.skip(1)[i] == s[i + 1]);
            assert(b.skip(1)[i] == b[i + 1]);
        }
        lemma_ascii_run(s.skip(1), b.skip(1));
    }
}

/// Stripping underscores turns the leading digit-and-underscore run into a
/// pure digit run, and keeps the first character after the run in place.
proof fn lemma_strip_run(s: Seq<char>)
    ensures
        ({
            let t = strip_underscores(s);
            let k = spec_run_du_chars(s);
            let k2 = spec_run_digits_chars(t);
            &&& (k == s.len() ==> k2 == t.len())
            &&& (k < s.len() ==> k2 < t.len() && t[k2] == s[k])
        }),
    decreases s.len(),
{
    let t = strip_underscores(s);
    let k = spec_run_du_chars(s);
    let k2 = spec_run_digits_chars(t);
    if s.len() == 0 {
        reveal_with_fuel(Seq::filter, 1);
        assert(t.len() == 0);
    } else {
        lemma_removed_cons(s, B_UNDERSCORE);
        lemma_strip_run(s.skip(1));
        let t1 = strip_underscores(s.skip(1));
        lemma_run_du_chars_props(s);
        lemma_run_du_chars_props(s.skip(1));
        lemma_run_digits_chars_props(t);
        lemma_run_digits_chars_props(t1);
        if s[0] == '_' {
            assert(t == t1);
            assert(spec_run_du_chars(s.skip(1)) == k - 1);
            if k < s.len() {
                assert(s.skip(1)[k - 1] == s[k]);
            }
        } else {
            if s[0] as u32 == 0x5f {
                lemma_char_is(s[0], 0x5f, '_');
            }
            assert(t == seq![s[0]] + t1);
            assert(t[0] == s[0]);
            assert(t.skip(1) =~= t1);
            if is_dec_char(s[0]) {
                assert(spec_run_du_chars(s.skip(1)) == k - 1);
                assert(k2 == 1 + spec_run_digits_chars(t1));
                if k < s.len() {
                    assert(s.skip(1)[k - 1] == s[k]);
                    assert(t[k2] == t1[k2 - 1]);
                }
            } else {
                assert(k == 0);
                assert(k2 == 0);
            }
        }
    }
}

/// The suffix of an integer literal never begins with a float's letters:
/// a non-empty spelled suffix starts with `u` or `i`.
proof fn lemma_int_suffix_head(x: Seq<u8>)
    requires
        x.len() > 0,
        x[0] != B_LOW_U,
        x[0] != B_LOW_I,
    ensures
        spec_int_suffix(x) is None,
{
}

/// The character view and the byte view of an ASCII text spell the same
/// text, character for byte; this feeds the exclusivity laws below for any
/// ASCII literal text.
pub proof fn lemma_str_ascii_match(s: &str)
    requires
        vstd::string::is_ascii(s),
    ensures
        ascii_match(s@, s.spec_bytes()),
{
    vstd::string::is_ascii_spec_bytes(s);
    vstd::utf8::is_ascii_chars_nat_bound(s@);
    assert forall|i: int| 0 <= i < s@.len() implies (#[trigger] s@[i]) as u32 == s.spec_bytes()[i]
        as u32 by {
        assert((s@[i] as nat) < 128);
        assert(s.spec_bytes()[i] == s@[i] as u8);
    }
}

/// A text that decodes as an integer never decodes as a float: over the
/// same ASCII text, an integer value makes the float decoder answer
/// "not applicable".
pub proof fn lemma_int_text_is_no_float(s: Seq<char>, b: Seq<u8>)
    requires
        ascii_match(s, b),
        spec_int_lit(b) is Value,
    ensures
        spec_float_lit(s) == Decoded::<crate::model::FloatVal>::NotApplicable,
{
    let t = strip_underscores(s);
    let k = spec_run_du_chars(s);
    let k2 = spec_run_digits_chars(t);
    lemma_strip_run(s);
    lemma_ascii_run(s, b);
    lemma_run_du_bytes_props(b);
    lemma_run_digits_chars_props(t);
    if b.len() >= 2 && b[0] == B_0 && (b[1] == crate::model::B_LOW_X || b[1] == B_UP_X || b[1]
        == crate::model::B_LOW_O || b[1] == crate::model::B_LOW_B) {
        // a base prefix: the float decoder rejects `0x`, `0o` and `0b`
        // outright, and stops at the `X` of `0X` for want of a digit
        lemma_char_is(s[0], 0x30, '0');
        if b[1] == crate::model::B_LOW_X {
            lemma_char_is(s[1], 0x78, 'x');
        } else if b[1] == B_UP_X {
            lemma_char_is(s[1], 0x58, 'X');
            assert(k == 1);
            lemma_float_scan_na(t, 0, k2);
        } else if b[1] == crate::model::B_LOW_O {
            lemma_char_is(s[1], 0x6f, 'o');
        } else {
            lemma_char_is(s[1], 0x62, 'b');
        }
    } else {
        // base 10: the scan ends at the end of the text or at a valid
        // integer suffix, which starts with `u` or `i`
        assert(spec_int_digits(b, 10, Some(0u64)) is Value);
        if k < s.len() {
            let c = b[spec_run_du_bytes(b)];
            if c == B_DOT || c == B_LOW_E || c == B_UP_E {
                lemma_int_scan_float_break(b, Some(0u64), k);
                assert(false);
            }
            if spec_int_suffix(b.skip(k)) is None {
                lemma_int_scan_bad_suffix(b, Some(0u64), k);
                assert(false);
            }
            assert(b.skip(k)[0] == b[k]);
            lemma_char_is(s[k], b[k] as u32, t[k2]);
            assert(t[k2] as u32 == B_LOW_U as u32 || t[k2] as u32 == B_LOW_I as u32);
            if t[k2] == '.' || t[k2] == 'e' || t[k2] == 'E' || t[k2] == 'f' {
                assert(false);
            }
            lemma_float_scan_na(t, 0, k2);
        } else {
            lemma_float_scan_na(t, 0, k2);
        }
        if s.len() >= 2 && s[0] == '0' && (s[1] == 'x' || s[1] == 'o' || s[1] == 'b') {
            assert(s[1] as u32 == b[1] as u32);
            assert(false);
        }
    }
}

/// A text that decodes as a float never decodes as an integer: over the
/// same ASCII text, a float value makes the integer decoder answer
/// "not applicable".
pub proof fn lemma_float_text_is_no_int(s: Seq<char>, b: Seq<u8>)
    requires
        ascii_match(s, b),
        spec_float_lit(s) is Value,
    ensures
        spec_int_lit(b) == Decoded::<IntLit>::NotApplicable,
{
    let t = strip_underscores(s);
    let k = spec_run_du_chars(s);
    let k2 = spec_run_digits_chars(t);
    lemma_strip_run(s);
    lemma_ascii_run(s, b);
    lemma_run_du_bytes_props(b);
    lemma_run_digits_chars_props(t);
    // the float scan reached a fraction point, an exponent or a suffix
    if k == s.len() {
        lemma_float_scan_na(t, 0, k2);
        assert(false);
    }
    if !(t[k2] == '.' || t[k2] == 'e' || t[k2] == 'E' || t[k2] == 'f') {
        lemma_float_scan_na(t, 0, k2);
        assert(false);
    }
    assert(t[k2] == s[k]);
    let cb = b[k];
    assert(s[k] as u32 == cb as u32);
    if t[k2] == '.' {
        assert(cb == B_DOT);
    } else if t[k2] == 'e' {
        assert(cb == B_LOW_E);
    } else if t[k2] == 'E' {
        assert(cb == B_UP_E);
    } else {
        assert(cb == crate::model::B_LOW_F);
    }
    // no base prefix: the float decoder rejected `0x`, `0o` and `0b`, and
    // an `X` after the first digit would have ended the float scan
    if b.len() >= 2 && b[0] == B_0 && (b[1] == crate::model::B_LOW_X || b[1] == B_UP_X || b[1]
        == crate::model::B_LOW_O || b[1] == crate::model::B_LOW_B) {
        lemma_char_is(s[0], 0x30, '0');
        if b[1] == crate::model::B_LOW_X {
            lemma_char_is(s[1], 0x78, 'x');
        } else if b[1] == B_UP_X {
            lemma_char_is(s[1], 0x58, 'X');
            assert(k == 1);
            assert(false);
        } else if b[1] == crate::model::B_LOW_O {
            lemma_char_is(s[1], 0x6f, 'o');
        } else {
            lemma_char_is(s[1], 0x62, 'b');
        }
        assert(false);
    }
    assert(is_dec_char(s[0]));
    assert(is_dec_digit(b[0]));
    if cb == B_DOT || cb == B_LOW_E || cb == B_UP_E {
        lemma_int_scan_float_break(b, Some(0u64), k);
    } else {
        assert(b.skip(k)[0] == cb);
        lemma_int_suffix_head(b.skip(k));
        lemma_int_scan_bad_suffix(b, Some(0u64), k);
    }
}

} // verus!
