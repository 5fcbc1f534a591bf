use termion::color;
use termion::style;
use vstd::prelude::*;

verus! {

/// The colours that the board is drawn in.
#[derive(Clone, Copy, Debug, PartialEq, Eq, Structural)]
pub enum Tint {
    Black,
    Red,
    Green,
    Yellow,
    Blue,
    Magenta,
    Cyan,
    LightRed,
    LightGreen,
    LightBlue,
}

/// The number of a colour in the 256-colour palette, in decimal digits.
pub open spec fn palette(tint: Tint) -> Seq<char> {
    match tint {
        Tint::Black => seq!['0'],
        Tint::Red => seq!['1'],
        Tint::Green => seq!['2'],
        Tint::Yellow => seq!['3'],
        Tint::Blue => seq!['4'],
        Tint::Magenta => seq!['5'],
        Tint::Cyan => seq!['6'],
        Tint::LightRed => seq!['9'],
        Tint::LightGreen => seq!['1', '0'],
        Tint::LightBlue => seq!['1', '2'],
    }
}

/// The escape sequence that sets the colour of the text.
pub open spec fn fg_code(tint: Tint) -> Seq<char> {
    seq!['\x1b', '[', '3', '8', ';', '5', ';'] + palette(tint) + seq!['m']
}

/// The escape sequence that sets the colour behind the text.
pub open spec fn bg_code(tint: Tint) -> Seq<char> {
    seq!['\x1b', '[', '4', '8', ';', '5', ';'] + palette(tint) + seq!['m']
}

/// The escape sequence that ends every colour and style.
pub open spec fn reset_code() -> Seq<char> {
    seq!['\x1b', '[', 'm']
}

/// The text that `termion::color::Fg` is displayed as, for one of termion's named colours.
///
/// Trusted: termion writes the sequence `ESC [ 38;5; n m`, where `n` is the palette number
/// that it gives to the colour of that name.
#[verifier::external_body]
pub(crate) fn fg(tint: Tint) -> (s: String)
    ensures
        s@ == fg_code(tint),
{
    let c: &dyn color::Color = match tint {
        Tint::Black => &color::Black,
        Tint::Red => &color::Red,
        Tint::Green => &color::Green,
        Tint::Yellow => &color::Yellow,
        Tint::Blue => &color::Blue,
        Tint::Magenta => &color::Magenta,
        Tint::Cyan => &color::Cyan,
        Tint::LightRed => &color::LightRed,
        Tint::LightGreen => &color::LightGreen,
        Tint::LightBlue => &color::LightBlue,
    };
    format!("{}", color::Fg(c))
}

/// The text that `termion::color::Bg` is displayed as, for termion's colour `Red`.
///
/// Trusted: termion writes the sequence `ESC [ 48;5;1 m`.
#[verifier::external_body]
pub(crate) fn bg_red() -> (s: String)
    ensures
        s@ == bg_code(Tint::Red),
{
    format!("{}", color::Bg(color::Red))
}

/// The text that `termion::style::Reset` is displayed as.
///
/// Trusted: termion writes the sequence `ESC [ m`.
#[verifier::external_body]
pub(crate) fn reset() -> (s: String)
    ensures
        s@ == reset_code(),
{
    format!("{}", style::Reset)
}

} // verus!
