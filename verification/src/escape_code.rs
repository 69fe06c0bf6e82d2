//! A control sequence taken apart: its code, its parameters and the letter that ends it.
//!
//! A value of [`ANSIEscapeCode`] says nothing about what the sequence means; that is
//! for the families of modifiers to decide.

use vstd::prelude::*;
use vstd::std_specs::convert::FromSpecImpl;
use vstd::string::*;
use vstd::utf8::*;
use crate::decimal::{int_text, push_int, push_nat};
use crate::error::ModifierError;
use crate::grammar::{
    all_fit, ints_values, lemma_match_ascii, lemma_match_end, match_end, read_ints, scan_match,
    widen, BRACKET, ESC,
};
use crate::text::{byte_len, push_ascii, push_char};
use crate::traits::{HasLength, IntoANSIEscapeCode};

verus! {

/// The separator that is written between the integers unless another is chosen.
pub const DEFAULT_SEPARATOR: char = ';';

/// The letter that ends a style sequence, the only kind that has a code.
pub const STYLE_TERMINATOR: char = 'm';

/// One control sequence, taken apart.
#[derive(Debug)]
pub struct ANSIEscapeCode {
    /// The first integer of a sequence that ends in `m`; nothing for any other.
    pub code: Option<u16>,
    /// The integers after the code, or all of them where there is no code.
    pub modifiers: Vec<i32>,
    /// Written between the integers.  Reading accepts `;` and `:` alike and does not
    /// record which one it met.
    pub sep: char,
    /// The letter that ends the sequence.
    pub end_char: char,
    /// The text that the value was read from, kept so that its length stays known.
    pub source_str: Option<String>,
}

/// What an [`ANSIEscapeCode`] holds, as plain values.
pub struct EscapeCodeView {
    pub code: Option<u16>,
    pub modifiers: Seq<i32>,
    pub sep: char,
    pub end_char: char,
    /// The bytes of the source text.
    pub source: Option<Seq<u8>>,
}

impl View for ANSIEscapeCode {
    type V = EscapeCodeView;

    open spec fn view(&self) -> EscapeCodeView {
        EscapeCodeView {
            code: self.code,
            modifiers: self.modifiers@,
            sep: self.sep,
            end_char: self.end_char,
            source: match self.source_str {
                Some(s) => Some(encode_utf8(s@)),
                None => None,
            },
        }
    }
}

/// The integers `vals` written one after the other with `sep` between them.
pub open spec fn joined(vals: Seq<int>, sep: Seq<u8>) -> Seq<u8>
    decreases vals.len(),
{
    if vals.len() == 0 {
        Seq::empty()
    } else if vals.len() == 1 {
        int_text(vals[0])
    } else {
        int_text(vals[0]) + sep + joined(vals.drop_first(), sep)
    }
}

/// The integers of `vals`, each cut to 32 bits.
pub open spec fn narrow(vals: Seq<int>) -> Seq<i32> {
    Seq::new(vals.len(), |k: int| vals[k] as i32)
}

impl EscapeCodeView {
    /// All integers of the sequence in the order in which they are written: the code,
    /// if there is one, and then the parameters.
    pub open spec fn integers(self) -> Seq<int> {
        match self.code {
            Some(code) => seq![code as int] + widen(self.modifiers),
            None => widen(self.modifiers),
        }
    }

    /// The sequence written out: escape byte, bracket, the integers with the separator
    /// between them, and the letter that ends it.  A sequence without any integer is
    /// written with nothing between bracket and letter; reading asks for an integer
    /// and does not take that back.
    pub open spec fn text(self) -> Seq<u8> {
        seq![ESC, BRACKET] + joined(self.integers(), encode_utf8(seq![self.sep])) + encode_utf8(
            seq![self.end_char],
        )
    }

    /// The number of bytes that the sequence counts for: those of its source text
    /// where it has one, else those of [`Self::text`].
    pub open spec fn len(self) -> nat {
        match self.source {
            Some(bytes) => bytes.len(),
            None => self.text().len(),
        }
    }

    /// Two sequences are the same when code, parameters and final letter agree.
    /// Separator and source text do not count.
    pub open spec fn same_as(self, other: EscapeCodeView) -> bool {
        &&& self.code == other.code
        &&& self.modifiers == other.modifiers
        &&& self.end_char == other.end_char
    }
}

/// What reading the text from position `at` gives: the sequence that starts there, or
/// the reason why there is none.
///
/// The sequence has a code exactly when it ends in `m`; the code is then its first
/// integer, which has to be a 16-bit number, and the other integers are its
/// parameters.
pub open spec fn parsed_at(s: Seq<u8>, at: int) -> Result<EscapeCodeView, ModifierError> {
    match match_end(s, at) {
        None => Err(ModifierError::NotAModifier),
        Some(e) => {
            let vals = ints_values(s, at + 2);
            let end_char = s[e - 1] as char;
            let source = Some(s.subrange(at, e));
            if !all_fit(vals) {
                Err(ModifierError::ParameterOutOfRange)
            } else if end_char == STYLE_TERMINATOR {
                if 0 <= vals[0] <= u16::MAX {
                    Ok(
                        EscapeCodeView {
                            code: Some(vals[0] as u16),
                            modifiers: narrow(vals.drop_first()),
                            sep: DEFAULT_SEPARATOR,
                            end_char,
                            source,
                        },
                    )
                } else {
                    Err(ModifierError::CodeOutOfRange { value: vals[0] as i32 })
                }
            } else {
                Ok(
                    EscapeCodeView {
                        code: None,
                        modifiers: narrow(vals),
                        sep: DEFAULT_SEPARATOR,
                        end_char,
                        source,
                    },
                )
            }
        },
    }
}

/// What reading a text gives: the sequence that the text begins with, or the reason
/// why there is none.
pub open spec fn parsed(s: Seq<u8>) -> Result<EscapeCodeView, ModifierError> {
    parsed_at(s, 0)
}

/// Writing one integer more puts the separator and the integer after what was
/// written so far.
pub proof fn lemma_joined_push(vals: Seq<int>, v: int, sep: Seq<u8>)
    ensures
        joined(vals.push(v), sep) == if vals.len() == 0 {
            int_text(v)
        } else {
            joined(vals, sep) + sep + int_text(v)
        },
    decreases vals.len(),
{
    let all = vals.push(v);
    if vals.len() == 0 {
    } else if vals.len() == 1 {
        assert(all.drop_first() =~= seq![v]);
        assert(joined(all.drop_first(), sep) == int_text(v));
        assert(all[0] == vals[0]);
    } else {
        lemma_joined_push(vals.drop_first(), v, sep);
        assert(all.drop_first() =~= vals.drop_first().push(v));
        assert(all[0] == vals[0]);
        assert(joined(all, sep) =~= joined(vals, sep) + sep + int_text(v));
    }
}

impl ANSIEscapeCode {
    /// Makes a sequence with the default separator and no source text.
    pub fn new(code: Option<u16>, modifiers: Option<Vec<i32>>, end_char: char) -> (r: Self)
        ensures
            r@ == (EscapeCodeView {
                code,
                modifiers: match modifiers {
                    Some(v) => v@,
                    None => Seq::empty(),
                },
                sep: DEFAULT_SEPARATOR,
                end_char,
                source: None,
            }),
    {
        let modifiers = match modifiers {
            Some(v) => v,
            None => Vec::new(),
        };
        Self { code, modifiers, sep: DEFAULT_SEPARATOR, end_char, source_str: None }
    }

    /// Records `text` as the text that the sequence was read from.
    pub fn add_source(self, text: &str) -> (r: Self)
        ensures
            r@ == (EscapeCodeView { source: Some(text.spec_bytes()), ..self@ }),
    {
        let mut code = self;
        code.source_str = Some(text.to_owned());
        code
    }

    /// Chooses the separator that is written between the integers.
    pub fn use_sep(self, sep: char) -> (r: Self)
        ensures
            r@ == (EscapeCodeView { sep, ..self@ }),
    {
        let mut code = self;
        code.sep = sep;
        code
    }

    /// Finds the control sequence that `text` begins with and gives the number of
    /// bytes that it takes up.
    pub fn parse(text: &str) -> (r: Result<usize, ModifierError>)
        ensures
            match r {
                Ok(end) => match_end(text.spec_bytes(), 0) == Some(end as int),
                Err(e) => match_end(text.spec_bytes(), 0) is None && e
                    == ModifierError::NotAModifier,
            },
    {
        match scan_match(text.as_bytes(), 0) {
            Some(end) => Ok(end),
            None => Err(ModifierError::NotAModifier),
        }
    }

    /// Reads the control sequence that starts at byte `at` of `bytes`.
    pub fn parse_at(bytes: &[u8], at: usize) -> (r: Result<Self, ModifierError>)
        requires
            at <= bytes.len(),
        ensures
            match r {
                Ok(c) => parsed_at(bytes@, at as int) == Ok::<EscapeCodeView, ModifierError>(c@),
                Err(e) => parsed_at(bytes@, at as int) == Err::<EscapeCodeView, ModifierError>(e),
            },
    {
        let end = match scan_match(bytes, at) {
            Some(end) => end,
            None => {
                return Err(ModifierError::NotAModifier);
            },
        };
        proof {
            lemma_match_end(bytes@, at as int);
            lemma_match_ascii(bytes@, at as int);
        }
        let mut vals = match read_ints(bytes, at + 2) {
            Some(vals) => vals,
            None => {
                return Err(ModifierError::ParameterOutOfRange);
            },
        };
        let ghost all = ints_values(bytes@, at + 2);
        let last = bytes[end - 1];
        let end_char = last as char;
        let mut source = String::new();
        let mut k: usize = at;
        assert(encode_utf8(source@) =~= bytes@.subrange(at as int, k as int));
        while k < end
            invariant
                at <= k <= end <= bytes.len(),
                forall|j: int| at <= j < end ==> bytes@[j] < 128,
                encode_utf8(source@) == bytes@.subrange(at as int, k as int),
            decreases end - k,
        {
            push_ascii(&mut source, bytes[k]);
            proof {
                assert(bytes@.subrange(at as int, k as int).push(bytes@[k as int])
                    =~= bytes@.subrange(at as int, k + 1));
            }
            k = k + 1;
        }
        if end_char == STYLE_TERMINATOR {
            let first = vals[0];
            if first < 0 || first > 0xffff {
                return Err(ModifierError::CodeOutOfRange { value: first });
            }
            let _ = vals.remove(0);
            proof {
                assert(vals@ =~= narrow(all.drop_first()));
            }
            Ok(
                ANSIEscapeCode {
                    code: Some(first as u16),
                    modifiers: vals,
                    sep: DEFAULT_SEPARATOR,
                    end_char,
                    source_str: Some(source),
                },
            )
        } else {
            proof {
                assert(vals@ =~= narrow(all));
            }
            Ok(
                ANSIEscapeCode {
                    code: None,
                    modifiers: vals,
                    sep: DEFAULT_SEPARATOR,
                    end_char,
                    source_str: Some(source),
                },
            )
        }
    }

    /// Writes the sequence out.
    pub fn to_string(&self) -> (r: String)
        ensures
            encode_utf8(r@) == self@.text(),
    {
        let ghost ints = self@.integers();
        let ghost sep = encode_utf8(seq![self.sep]);
        let mut out = String::new();
        push_ascii(&mut out, ESC);
        push_ascii(&mut out, BRACKET);
        assert(encode_utf8(out@) =~= seq![ESC, BRACKET] + joined(ints.subrange(0, 0), sep));
        let mut first = true;
        if let Some(code) = self.code {
            push_nat(&mut out, code as u32);
            first = false;
            proof {
                assert(ints.subrange(0, 1) =~= seq![code as int]);
                assert(encode_utf8(out@) =~= seq![ESC, BRACKET] + joined(ints.subrange(0, 1), sep));
            }
        }
        let ghost offset: int = if self.code is Some {
            1
        } else {
            0
        };
        let mut k: usize = 0;
        while k < self.modifiers.len()
            invariant
                k <= self.modifiers.len(),
                ints == self@.integers(),
                sep == encode_utf8(seq![self.sep]),
                offset == if self.code is Some {
                    1int
                } else {
                    0int
                },
                first == (offset + k == 0),
                encode_utf8(out@) == seq![ESC, BRACKET] + joined(
                    ints.subrange(0, offset + k),
                    sep,
                ),
            decreases self.modifiers.len() - k,
        {
            let ghost before = ints.subrange(0, offset + k);
            if !first {
                push_char(&mut out, self.sep);
            }
            push_int(&mut out, self.modifiers[k]);
            proof {
                let v = self.modifiers[k as int] as int;
                assert(ints[offset + k] == v);
                assert(ints.subrange(0, offset + k + 1) =~= before.push(v));
                lemma_joined_push(before, v, sep);
                if first {
                    assert(encode_utf8(out@) =~= seq![ESC, BRACKET] + joined(before.push(v), sep));
                } else {
                    assert(encode_utf8(out@) =~= seq![ESC, BRACKET] + joined(before.push(v), sep));
                }
            }
            first = false;
            k = k + 1;
        }
        push_char(&mut out, self.end_char);
        proof {
            assert(ints.subrange(0, offset + k) =~= ints);
        }
        out
    }
}

impl HasLength for ANSIEscapeCode {
    open spec fn spec_len(&self) -> nat {
        self@.len()
    }

    /// The number of bytes of the source text where there is one, else of the sequence
    /// as [`ANSIEscapeCode::to_string`] writes it.
    fn len(&self) -> (n: usize) {
        match &self.source_str {
            Some(s) => byte_len(s.as_str()),
            None => {
                let written = self.to_string();
                byte_len(written.as_str())
            },
        }
    }
}

impl PartialEq for ANSIEscapeCode {
    fn eq(&self, other: &Self) -> (r: bool) {
        if self.code != other.code || self.end_char != other.end_char {
            return false;
        }
        if self.modifiers.len() != other.modifiers.len() {
            return false;
        }
        let mut k: usize = 0;
        while k < self.modifiers.len()
            invariant
                k <= self.modifiers.len(),
                self.modifiers.len() == other.modifiers.len(),
                forall|j: int| 0 <= j < k ==> self.modifiers@[j] == other.modifiers@[j],
            decreases self.modifiers.len() - k,
        {
            if self.modifiers[k] != other.modifiers[k] {
                return false;
            }
            k = k + 1;
        }
        assert(self.modifiers@ =~= other.modifiers@);
        true
    }
}

impl vstd::std_specs::cmp::PartialEqSpecImpl for ANSIEscapeCode {
    open spec fn obeys_eq_spec() -> bool {
        true
    }

    open spec fn eq_spec(&self, other: &Self) -> bool {
        self@.same_as(other@)
    }
}

impl<'a> TryFrom<&'a str> for ANSIEscapeCode {
    type Error = ModifierError;

    /// Reads the control sequence that `value` begins with.
    fn try_from(value: &'a str) -> (r: Result<Self, ModifierError>)
        ensures
            match r {
                Ok(c) => parsed(value.spec_bytes()) == Ok::<EscapeCodeView, ModifierError>(c@),
                Err(e) => parsed(value.spec_bytes()) == Err::<EscapeCodeView, ModifierError>(e),
            },
    {
        ANSIEscapeCode::parse_at(value.as_bytes(), 0)
    }
}

/// A sequence holds a `Vec` and a `String`, which no spec function can build: what
/// reading gives is stated by `try_from` itself, over the plain values.
impl<'a> vstd::std_specs::convert::TryFromSpecImpl<&'a str> for ANSIEscapeCode {
    open spec fn obeys_try_from_spec() -> bool {
        false
    }

    open spec fn try_from_spec(v: &'a str) -> Result<Self, ModifierError> {
        arbitrary()
    }
}


impl<'a, U: IntoANSIEscapeCode> From<&'a U> for ANSIEscapeCode {
    /// The control sequence that stands for `value`.
    fn from(value: &'a U) -> (r: ANSIEscapeCode)
        ensures
            r@ == value.escape_code(),
    {
        value.into_ansi_escape_code()
    }
}

/// A sequence holds a `Vec`, which no spec function can build: what the conversion
/// gives is stated by `from` itself, over the plain values.
impl<'a, U: IntoANSIEscapeCode> FromSpecImpl<&'a U> for ANSIEscapeCode {
    open spec fn obeys_from_spec() -> bool {
        false
    }

    open spec fn from_spec(v: &'a U) -> ANSIEscapeCode {
        arbitrary()
    }
}

} // verus!
