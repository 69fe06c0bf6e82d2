//! What the families of modifiers and the control sequence itself have in common.

use vstd::prelude::*;
use crate::escape_code::{ANSIEscapeCode, EscapeCodeView};

verus! {

/// For what can be written as a control sequence.
pub trait IntoANSIEscapeCode {
    /// The control sequence that stands for `self`.
    spec fn escape_code(&self) -> EscapeCodeView;

    /// Builds the control sequence that stands for `self`.  It has no source text.
    fn into_ansi_escape_code(&self) -> (r: ANSIEscapeCode)
        ensures
            r@ == self.escape_code(),
            r@.source is None,
    ;
}

/// For what takes up a number of bytes when it is written out.
pub trait HasLength {
    /// The number of bytes that `self` takes up.
    spec fn spec_len(&self) -> nat;

    /// Counts the bytes that `self` takes up.
    fn len(&self) -> (n: usize)
        ensures
            n == self.spec_len(),
    ;
}


/// Writes out the control sequence that stands for `m`.
pub fn written<T: IntoANSIEscapeCode>(m: &T) -> (r: String)
    ensures
        vstd::utf8::encode_utf8(r@) == m.escape_code().text(),
{
    let code = m.into_ansi_escape_code();
    code.to_string()
}

/// Counts the bytes of the control sequence that stands for `m`.
pub fn written_len<T: IntoANSIEscapeCode>(m: &T) -> (n: usize)
    ensures
        n == m.escape_code().text().len(),
{
    let code = m.into_ansi_escape_code();
    code.len()
}

} // verus!
