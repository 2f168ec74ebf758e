//! Colouring text for a terminal, with the crate `colored`.
//!
//! What a coloured text looks like once written out depends on the
//! environment of the process: `colored` leaves the text as it is where
//! colours are switched off. So nothing is stated of the texts that come out.

use colored::ColoredString;
use colored::Colorize;
use vstd::prelude::*;

verus! {

/// A text with its colours, of `colored`. Nothing is known of what it holds.
#[verifier::external_type_specification]
#[verifier::external_body]
pub struct ExColoredString(ColoredString);

/// `Colorize::red` of `colored` on a text: the text, to be written in red.
#[verifier::external_body]
pub(crate) fn red(text: &str) -> ColoredString {
    text.red()
}

/// `Colorize::black` of `colored` on a text: the text, to be written in black.
#[verifier::external_body]
pub(crate) fn black(text: &str) -> ColoredString {
    text.black()
}

/// `Colorize::bright_green` of `colored` on a text: the text, to be written
/// in bright green.
#[verifier::external_body]
pub(crate) fn bright_green(text: &str) -> ColoredString {
    text.bright_green()
}

/// `Colorize::bright_blue` of `colored` on a text: the text, to be written
/// in bright blue.
#[verifier::external_body]
pub(crate) fn bright_blue(text: &str) -> ColoredString {
    text.bright_blue()
}

/// `Colorize::on_white` of `colored`: the same text on a white background.
#[verifier::external_body]
pub(crate) fn on_white(text: ColoredString) -> ColoredString {
    text.on_white()
}

/// `Colorize::on_green` of `colored`: the same text on a green background.
#[verifier::external_body]
pub(crate) fn on_green(text: ColoredString) -> ColoredString {
    text.on_green()
}

/// `Colorize::on_blue` of `colored`: the same text on a blue background.
#[verifier::external_body]
pub(crate) fn on_blue(text: ColoredString) -> ColoredString {
    text.on_blue()
}

/// Writes a coloured text out, by the `Display` that `colored` gives it:
/// the text between the codes of its colours, or the text alone where the
/// environment switches colours off.
#[verifier::external_body]
pub(crate) fn written(text: &ColoredString) -> String {
    text.to_string()
}

} // verus!
