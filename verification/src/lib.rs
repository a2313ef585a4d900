//! Decoders for the textual form of source-language literal tokens.
//!
//! Each decoder takes the exact surface text of a literal (quotes, base
//! prefixes and suffixes included) and returns its interpreted value: an
//! integer with its suffix, the scanned parts of a float, a character, a
//! string, a byte, or a byte string.  Doc comments are classified by their
//! leading marker.  Every decoder distinguishes text that is simply not of
//! the requested kind ([`Decoded::NotApplicable`]) from text that violates
//! the literal grammar itself ([`Decoded::Malformed`]).

use vstd::prelude::*;

pub mod internal;
pub mod laws;
pub mod model;

use vstd::string::StringSliceAdditionalSpecFns;

verus! {

/// The outcome of one decode call.
///
/// `NotApplicable` is the expected, recoverable answer when the text is not
/// of the requested literal kind; callers dispatch by trying each kind in
/// turn.  `Malformed` reports an input that is not a syntactically valid
/// literal of the kind whose leading marker it carries; it is never produced
/// for well-formed literal tokens.
#[derive(Debug, Clone, PartialEq, Eq)]
pub enum Decoded<T> {
    /// The text is a literal of the requested kind with this value.
    Value(T),
    /// The text is not a literal of the requested kind.
    NotApplicable,
    /// The text carries the kind's leading marker but breaks its grammar.
    Malformed,
}

impl<T> Decoded<T> {
    /// The decoded value; `None` both when the text is of another kind and
    /// when it is malformed.
    pub fn value(self) -> (r: Option<T>)
        ensures
            r == match self {
                Decoded::Value(t) => Some(t),
                Decoded::NotApplicable => None,
                Decoded::Malformed => None,
            },
    {
        match self {
            Decoded::Value(t) => Some(t),
            Decoded::NotApplicable => None,
            Decoded::Malformed => None,
        }
    }
}

impl<T: View> View for Decoded<T> {
    type V = Decoded<T::V>;

    open spec fn view(&self) -> Decoded<T::V> {
        match self {
            Decoded::Value(t) => Decoded::Value(t.view()),
            Decoded::NotApplicable => Decoded::NotApplicable,
            Decoded::Malformed => Decoded::Malformed,
        }
    }
}

/// The suffix written on a float literal: exactly `f32` or `f64`, or no
/// suffix at all.
#[derive(Debug, Clone, Copy, PartialEq, Eq, Structural)]
pub enum FloatSuffix {
    Empty,
    F32,
    F64,
}

/// The scanned parts of a float literal: the numeric text with underscores
/// and the suffix stripped, ready for decimal-to-binary conversion, and the
/// suffix.
#[derive(Debug, Clone, PartialEq, Eq)]
pub struct FloatParts {
    /// The numeric text, a decimal significand with an optional exponent.
    pub number: String,
    /// The suffix spelled on the literal.
    pub suffix: FloatSuffix,
}

impl View for FloatParts {
    type V = crate::model::FloatVal;

    open spec fn view(&self) -> crate::model::FloatVal {
        crate::model::FloatVal { number: self.number@, suffix: self.suffix }
    }
}

/// The spelling of a float suffix, as a character sequence.
pub open spec fn float_suffix_chars(s: FloatSuffix) -> Seq<char> {
    match s {
        FloatSuffix::Empty => ""@,
        FloatSuffix::F32 => "f32"@,
        FloatSuffix::F64 => "f64"@,
    }
}

impl FloatParts {
    /// Get the suffix written on the float literal.
    pub fn suffix(&self) -> (r: &'static str)
        ensures
            r@ == float_suffix_chars(self.suffix),
    {
        match self.suffix {
            FloatSuffix::Empty => "",
            FloatSuffix::F32 => "f32",
            FloatSuffix::F64 => "f64",
        }
    }
}

/// The suffix written on an integer literal, one of the exact spellings
/// `u8`, `i8`, `u16`, `i16`, `u32`, `i32`, `u64`, `i64`, `usize`, `isize`,
/// or no suffix at all.
#[derive(Debug, Clone, Copy, PartialEq, Eq, Structural)]
pub enum IntSuffix {
    Empty,
    U8,
    I8,
    U16,
    I16,
    U32,
    I32,
    U64,
    I64,
    Usize,
    Isize,
}

/// A decoded integer literal: its accumulated value, absent when the digits
/// overflowed 64 bits, and its suffix.
#[derive(Debug, Clone, Copy, PartialEq, Eq)]
pub struct IntLit {
    /// The accumulated value, or `None` if it overflowed 64 bits.
    pub val: Option<u64>,
    /// The suffix spelled on the literal.
    pub suffix: IntSuffix,
}

/// The spelling of an integer suffix, as a character sequence.
pub open spec fn int_suffix_chars(s: IntSuffix) -> Seq<char> {
    match s {
        IntSuffix::Empty => ""@,
        IntSuffix::U8 => "u8"@,
        IntSuffix::I8 => "i8"@,
        IntSuffix::U16 => "u16"@,
        IntSuffix::I16 => "i16"@,
        IntSuffix::U32 => "u32"@,
        IntSuffix::I32 => "i32"@,
        IntSuffix::U64 => "u64"@,
        IntSuffix::I64 => "i64"@,
        IntSuffix::Usize => "usize"@,
        IntSuffix::Isize => "isize"@,
    }
}

/// The value extracted from an integer literal for a requested width: the
/// accumulated value when the suffix is empty or exactly the requested one
/// and the value is present and fits below `max`, and absent otherwise.
pub open spec fn int_extract(l: IntLit, want: IntSuffix, max: u64) -> Option<u64> {
    if l.suffix != IntSuffix::Empty && l.suffix != want {
        None
    } else {
        match l.val {
            Some(v) => if v <= max {
                Some(v)
            } else {
                None
            },
            None => None,
        }
    }
}

impl IntLit {
    /// Get the suffix written on the integer literal.
    pub fn suffix(&self) -> (r: &'static str)
        ensures
            r@ == int_suffix_chars(self.suffix),
    {
        match self.suffix {
            IntSuffix::Empty => "",
            IntSuffix::U8 => "u8",
            IntSuffix::I8 => "i8",
            IntSuffix::U16 => "u16",
            IntSuffix::I16 => "i16",
            IntSuffix::U32 => "u32",
            IntSuffix::I32 => "i32",
            IntSuffix::U64 => "u64",
            IntSuffix::I64 => "i64",
            IntSuffix::Usize => "usize",
            IntSuffix::Isize => "isize",
        }
    }

    /// The shared accessor body: the value when the suffix is empty or the
    /// requested one and the value is present and at most `max`.
    fn extract_raw(&self, want: IntSuffix, max: u64) -> (r: Option<u64>)
        ensures
            r == int_extract(*self, want, max),
    {
        if self.suffix != IntSuffix::Empty && self.suffix != want {
            return None;
        }
        match self.val {
            Some(v) => if v <= max {
                Some(v)
            } else {
                None
            },
            None => None,
        }
    }

    /// Returns `None` if the value overflows `u8`, or if the suffix is wrong.
    pub fn as_u8(&self) -> (r: Option<u8>)
        ensures
            r == match int_extract(*self, IntSuffix::U8, u8::MAX as u64) {
                Some(v) => Some(v as u8),
                None => None,
            },
    {
        match self.extract_raw(IntSuffix::U8, 0xff) {
            Some(v) => Some(v as u8),
            None => None,
        }
    }

    /// Returns `None` if the value overflows `i8`, or if the suffix is wrong.
    pub fn as_i8(&self) -> (r: Option<i8>)
        ensures
            r == match int_extract(*self, IntSuffix::I8, i8::MAX as u64) {
                Some(v) => Some(v as i8),
                None => None,
            },
    {
        match self.extract_raw(IntSuffix::I8, 0x7f) {
            Some(v) => Some(v as i8),
            None => None,
        }
    }

    /// Returns `None` if the value overflows `u16`, or if the suffix is wrong.
    pub fn as_u16(&self) -> (r: Option<u16>)
        ensures
            r == match int_extract(*self, IntSuffix::U16, u16::MAX as u64) {
                Some(v) => Some(v as u16),
                None => None,
            },
    {
        match self.extract_raw(IntSuffix::U16, 0xffff) {
            Some(v) => Some(v as u16),
            None => None,
        }
    }

    /// Returns `None` if the value overflows `i16`, or if the suffix is wrong.
    pub fn as_i16(&self) -> (r: Option<i16>)
        ensures
            r == match int_extract(*self, IntSuffix::I16, i16::MAX as u64) {
                Some(v) => Some(v as i16),
                None => None,
            },
    {
        match self.extract_raw(IntSuffix::I16, 0x7fff) {
            Some(v) => Some(v as i16),
            None => None,
        }
    }

    /// Returns `None` if the value overflows `u32`, or if the suffix is wrong.
    pub fn as_u32(&self) -> (r: Option<u32>)
        ensures
            r == match int_extract(*self, IntSuffix::U32, u32::MAX as u64) {
                Some(v) => Some(v as u32),
                None => None,
            },
    {
        match self.extract_raw(IntSuffix::U32, 0xffff_ffff) {
            Some(v) => Some(v as u32),
            None => None,
        }
    }

    /// Returns `None` if the value overflows `i32`, or if the suffix is wrong.
    pub fn as_i32(&self) -> (r: Option<i32>)
        ensures
            r == match int_extract(*self, IntSuffix::I32, i32::MAX as u64) {
                Some(v) => Some(v as i32),
                None => None,
            },
    {
        match self.extract_raw(IntSuffix::I32, 0x7fff_ffff) {
            Some(v) => Some(v as i32),
            None => None,
        }
    }

    /// Returns `None` if the value overflows, or if the suffix is wrong.
    pub fn as_u64(&self) -> (r: Option<u64>)
        ensures
            r == int_extract(*self, IntSuffix::U64, u64::MAX),
    {
        self.extract_raw(IntSuffix::U64, 0xffff_ffff_ffff_ffff)
    }

    /// Returns `None` if the value overflows `i64`, or if the suffix is wrong.
    pub fn as_i64(&self) -> (r: Option<i64>)
        ensures
            r == match int_extract(*self, IntSuffix::I64, i64::MAX as u64) {
                Some(v) => Some(v as i64),
                None => None,
            },
    {
        match self.extract_raw(IntSuffix::I64, 0x7fff_ffff_ffff_ffff) {
            Some(v) => Some(v as i64),
            None => None,
        }
    }
}

/// A dummy literal type to be used for testing or parsing literals without
/// any external token type: it wraps the literal's exact surface text.
pub struct DummyLiteral<'a>(pub &'a str);

impl<'a> DummyLiteral<'a> {
    /// If the text is an integer literal, its decoded value and suffix.
    pub fn parse_int(&self) -> (r: Decoded<IntLit>)
        ensures
            r == crate::model::spec_int_lit(self.0.spec_bytes()),
    {
        crate::internal::int_lit(self.0)
    }

    /// If the text is a float literal, its scanned numeric text and suffix.
    pub fn parse_float(&self) -> (r: Decoded<FloatParts>)
        ensures
            r@ == crate::model::spec_float_lit(self.0@),
    {
        crate::internal::float_lit(self.0.to_owned())
    }

    /// If the text is a string literal, its decoded value.
    pub fn parse_string(&self) -> (r: Decoded<String>)
        ensures
            r@ == crate::model::spec_str_lit(self.0@),
    {
        crate::internal::str_lit(self.0)
    }

    /// If the text is a character literal, its decoded value.
    pub fn parse_char(&self) -> (r: Decoded<char>)
        ensures
            r == crate::model::spec_char_lit(self.0@),
    {
        crate::internal::char_lit(self.0)
    }

    /// If the text is a byte-string literal, its decoded bytes.
    pub fn parse_bytes(&self) -> (r: Decoded<Vec<u8>>)
        ensures
            r@ == crate::model::spec_byte_str_lit(self.0.spec_bytes()),
    {
        crate::internal::byte_str_lit(self.0)
    }

    /// If the text is a byte literal, its decoded value.
    pub fn parse_byte(&self) -> (r: Decoded<u8>)
        ensures
            r == crate::model::spec_byte_lit(self.0.spec_bytes()),
    {
        crate::internal::byte_lit(self.0)
    }

    /// If the text is an inner doc comment (`//!` or `/*!`), its full text.
    pub fn parse_inner_doc(&self) -> (r: Option<String>)
        ensures
            match r {
                Some(t) => crate::model::is_inner_doc(self.0@) && t@ == self.0@,
                None => !crate::model::is_inner_doc(self.0@),
            },
    {
        crate::internal::inner_doc(self.0.to_owned())
    }

    /// If the text is an outer doc comment (`///` or `/**`), its full text.
    pub fn parse_outer_doc(&self) -> (r: Option<String>)
        ensures
            match r {
                Some(t) => crate::model::is_outer_doc(self.0@) && t@ == self.0@,
                None => !crate::model::is_outer_doc(self.0@),
            },
    {
        crate::internal::outer_doc(self.0.to_owned())
    }
}

} // verus!
