//! Small checks on strings and bytes.

use vstd::prelude::*;
use vstd::string::StringSliceAdditionalSpecFns;
use vstd::utf8::encode_utf8;

verus! {

/// `A-Z`, `a-z`, `0-9` and `_`, as bytes.
pub open spec fn is_word_byte(b: u8) -> bool {
    (65 <= b <= 90) || (97 <= b <= 122) || (48 <= b <= 57) || b == 95
}

/// Whether the byte is an ASCII letter, digit or underscore.
pub fn alpha_numeric_byte(b: u8) -> (r: bool)
    ensures
        r == is_word_byte(b),
{
    (65 <= b && b <= 90) || (97 <= b && b <= 122) || (48 <= b && b <= 57) || b == 95
}

/// Whether every byte is an ASCII letter, digit or underscore.
pub fn all_alpha_numeric(bytes: &[u8]) -> (r: bool)
    ensures
        r == forall|i: int| 0 <= i < bytes@.len() ==> is_word_byte(#[trigger] bytes@[i]),
{
    let mut i: usize = 0;
    while i < bytes.len()
        invariant
            0 <= i <= bytes@.len(),
            forall|j: int| 0 <= j < i ==> is_word_byte(#[trigger] bytes@[j]),
        decreases bytes@.len() - i,
    {
        if !alpha_numeric_byte(bytes[i]) {
            return false;
        }
        i = i + 1;
    }
    true
}

/// For the `is_alpha_numeric` method on strings and bytes.
pub trait IsAlphaNumeric {
    spec fn spec_is_alpha_numeric(&self) -> bool;

    /// Whether each byte is an ASCII letter, digit or underscore.
    fn is_alpha_numeric(&self) -> (r: bool)
        ensures
            r == self.spec_is_alpha_numeric(),
    ;
}

impl IsAlphaNumeric for str {
    open spec fn spec_is_alpha_numeric(&self) -> bool {
        forall|i: int| 0 <= i < self.spec_bytes().len() ==> is_word_byte(#[trigger] self.spec_bytes()[i])
    }

    fn is_alpha_numeric(&self) -> (r: bool) {
        all_alpha_numeric(self.as_bytes())
    }
}

impl IsAlphaNumeric for String {
    open spec fn spec_is_alpha_numeric(&self) -> bool {
        forall|i: int|
            0 <= i < encode_utf8(self@).len() ==> is_word_byte(#[trigger] encode_utf8(self@)[i])
    }

    fn is_alpha_numeric(&self) -> (r: bool) {
        all_alpha_numeric(self.as_str().as_bytes())
    }
}

impl IsAlphaNumeric for u8 {
    open spec fn spec_is_alpha_numeric(&self) -> bool {
        is_word_byte(*self)
    }

    fn is_alpha_numeric(&self) -> (r: bool) {
        alpha_numeric_byte(*self)
    }
}

impl IsAlphaNumeric for usize {
    /// A number past the byte range is no letter.
    open spec fn spec_is_alpha_numeric(&self) -> bool {
        *self < 256 && is_word_byte(*self as u8)
    }

    fn is_alpha_numeric(&self) -> (r: bool) {
        *self < 256 && alpha_numeric_byte(*self as u8)
    }
}

} // verus!
