//! Literals of the generated program, as the token library writes them.

use vstd::prelude::*;

verus! {

/// The character of a decimal digit.
pub open spec fn digit(value: int) -> char {
    seq!['0', '1', '2', '3', '4', '5', '6', '7', '8', '9'][value]
}

/// A number in decimal, without leading zeros.
pub open spec fn decimal(n: nat) -> Seq<char>
    decreases n,
{
    if n < 10 {
        seq![digit(n as int)]
    } else {
        decimal(n / 10).push(digit((n % 10) as int))
    }
}

/// The text of a string literal that stands for `text`: what
/// `proc_macro2::Literal::string` writes.
pub uninterp spec fn string_literal_text(text: Seq<char>) -> Seq<char>;

/// The text of a byte literal that stands for `value`: what
/// `syn::LitByte::new` writes.
pub uninterp spec fn byte_literal_text(value: u8) -> Seq<char>;

/// `proc_macro2::Literal::usize_suffixed`, and the literal's `to_string`: the
/// number in decimal with its type behind it.
#[verifier::external_body]
pub(crate) fn usize_literal(n: usize) -> (text: String)
    ensures
        text@ == decimal(n as nat) + "usize"@,
{
    proc_macro2::Literal::usize_suffixed(n).to_string()
}

/// `proc_macro2::Literal::u8_suffixed`, and the literal's `to_string`: the
/// number in decimal with its type behind it.
#[verifier::external_body]
pub(crate) fn u8_literal(n: u8) -> (text: String)
    ensures
        text@ == decimal(n as nat) + "u8"@,
{
    proc_macro2::Literal::u8_suffixed(n).to_string()
}

/// `proc_macro2::Literal::u16_suffixed`, and the literal's `to_string`: the
/// number in decimal with its type behind it.
#[verifier::external_body]
pub(crate) fn u16_literal(n: u16) -> (text: String)
    ensures
        text@ == decimal(n as nat) + "u16"@,
{
    proc_macro2::Literal::u16_suffixed(n).to_string()
}

/// `proc_macro2::Literal::u32_suffixed`, and the literal's `to_string`: the
/// number in decimal with its type behind it.
#[verifier::external_body]
pub(crate) fn u32_literal(n: u32) -> (text: String)
    ensures
        text@ == decimal(n as nat) + "u32"@,
{
    proc_macro2::Literal::u32_suffixed(n).to_string()
}

/// `proc_macro2::Literal::string`, and the literal's `to_string`: the text
/// between double quotes, with escapes where the token library puts them.
#[verifier::external_body]
pub(crate) fn string_literal(text: &str) -> (literal: String)
    ensures
        literal@ == string_literal_text(text@),
{
    proc_macro2::Literal::string(text).to_string()
}

/// `syn::LitByte::new` at the call site's span, and `to_string` of its
/// token: a byte literal, with an escape where the token library puts one.
#[verifier::external_body]
pub(crate) fn byte_literal(value: u8) -> (literal: String)
    ensures
        literal@ == byte_literal_text(value),
{
    syn::LitByte::new(value, proc_macro2::Span::call_site()).token().to_string()
}

} // verus!
