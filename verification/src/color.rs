//! Rendering of RGB colors as Asymptote pen expressions.
//!
//! A fixed table maps common RGB triples to Asymptote's symbolic pen
//! names; every other color is rendered as a hexadecimal `rgb` call with
//! two lowercase digits per channel.
use vstd::prelude::*;
use vstd::string::StringExecFns;

use crate::asy::Asy;
use crate::AsyOptions;

verus! {

/// An RGB color with three 8-bit channels.
#[derive(Clone, Copy, PartialEq, Eq, Structural, Debug)]
pub struct Color {
    pub red: u8,
    pub green: u8,
    pub blue: u8,
}

/// The character for one lowercase hexadecimal digit.
pub open spec fn hex_digit(d: nat) -> char {
    if d == 0 {
        '0'
    } else if d == 1 {
        '1'
    } else if d == 2 {
        '2'
    } else if d == 3 {
        '3'
    } else if d == 4 {
        '4'
    } else if d == 5 {
        '5'
    } else if d == 6 {
        '6'
    } else if d == 7 {
        '7'
    } else if d == 8 {
        '8'
    } else if d == 9 {
        '9'
    } else if d == 10 {
        'a'
    } else if d == 11 {
        'b'
    } else if d == 12 {
        'c'
    } else if d == 13 {
        'd'
    } else if d == 14 {
        'e'
    } else {
        'f'
    }
}

/// Exactly two lowercase hexadecimal digits for one channel.
pub open spec fn hex_byte(n: nat) -> Seq<char> {
    seq![hex_digit(n / 16), hex_digit(n % 16)]
}

/// The pen expression for a color: a symbolic name from the fixed table,
/// or a hexadecimal `rgb` call.
pub open spec fn color_text(c: Color) -> Seq<char> {
    let t = (c.red, c.green, c.blue);
    if t == (255u8, 192u8, 192u8) {
        "palered"@
    } else if t == (255u8, 128u8, 128u8) {
        "lightred"@
    } else if t == (255u8, 64u8, 64u8) {
        "mediumred"@
    } else if t == (255u8, 0u8, 0u8) {
        "red"@
    } else if t == (192u8, 0u8, 0u8) {
        "heavyred"@
    } else if t == (128u8, 0u8, 0u8) {
        "brown"@
    } else if t == (64u8, 0u8, 0u8) {
        "darkbrown"@
    } else if t == (192u8, 255u8, 192u8) {
        "palegreen"@
    } else if t == (128u8, 255u8, 128u8) {
        "lightgreen"@
    } else if t == (64u8, 255u8, 64u8) {
        "mediumgreen"@
    } else if t == (0u8, 255u8, 0u8) {
        "green"@
    } else if t == (0u8, 192u8, 0u8) {
        "heavygreen"@
    } else if t == (0u8, 128u8, 0u8) {
        "deepgreen"@
    } else if t == (0u8, 64u8, 0u8) {
        "darkgreen"@
    } else if t == (192u8, 192u8, 255u8) {
        "paleblue"@
    } else if t == (128u8, 128u8, 255u8) {
        "lightblue"@
    } else if t == (64u8, 64u8, 255u8) {
        "mediumblue"@
    } else if t == (0u8, 0u8, 255u8) {
        "blue"@
    } else if t == (0u8, 0u8, 192u8) {
        "heavyblue"@
    } else if t == (0u8, 0u8, 128u8) {
        "deepblue"@
    } else if t == (0u8, 0u8, 64u8) {
        "darkblue"@
    } else if t == (192u8, 255u8, 255u8) {
        "palecyan"@
    } else if t == (128u8, 255u8, 255u8) {
        "lightcyan"@
    } else if t == (64u8, 255u8, 255u8) {
        "mediumcyan"@
    } else if t == (0u8, 192u8, 192u8) {
        "heavycyan"@
    } else if t == (0u8, 128u8, 128u8) {
        "deepcyan"@
    } else if t == (0u8, 64u8, 64u8) {
        "darkcyan"@
    } else if t == (255u8, 192u8, 255u8) {
        "pink"@
    } else if t == (255u8, 128u8, 255u8) {
        "lightmagenta"@
    } else if t == (255u8, 64u8, 255u8) {
        "mediummagenta"@
    } else if t == (255u8, 0u8, 255u8) {
        "magenta"@
    } else if t == (192u8, 0u8, 192u8) {
        "heavymagenta"@
    } else if t == (128u8, 0u8, 128u8) {
        "deepmagenta"@
    } else if t == (64u8, 0u8, 64u8) {
        "darkmagenta"@
    } else if t == (255u8, 255u8, 192u8) {
        "paleyellow"@
    } else if t == (255u8, 255u8, 128u8) {
        "lightyellow"@
    } else if t == (255u8, 255u8, 64u8) {
        "mediumyellow"@
    } else if t == (255u8, 255u8, 0u8) {
        "yellow"@
    } else if t == (192u8, 192u8, 0u8) {
        "lightolive"@
    } else if t == (128u8, 128u8, 0u8) {
        "olive"@
    } else if t == (64u8, 64u8, 0u8) {
        "darkolive"@
    } else if t == (243u8, 243u8, 243u8) {
        "palegray"@
    } else if t == (230u8, 230u8, 230u8) {
        "lightgray"@
    } else if t == (192u8, 192u8, 192u8) {
        "mediumgray"@
    } else if t == (128u8, 128u8, 128u8) {
        "gray"@
    } else if t == (12u8, 12u8, 12u8) {
        "darkgray"@
    } else if t == (0u8, 0u8, 0u8) {
        "black"@
    } else if t == (255u8, 255u8, 255u8) {
        "white"@
    } else if t == (255u8, 128u8, 0u8) {
        "orange"@
    } else if t == (255u8, 0u8, 128u8) {
        "fuchsia"@
    } else if t == (128u8, 255u8, 0u8) {
        "chartreuse"@
    } else if t == (0u8, 255u8, 128u8) {
        "springgreen"@
    } else if t == (128u8, 0u8, 255u8) {
        "purple"@
    } else if t == (0u8, 128u8, 255u8) {
        "royalblue"@
    } else {
        "rgb(\""@ + hex_byte(c.red as nat) + hex_byte(c.green as nat) + hex_byte(c.blue as nat)
            + "\")"@
    }
}

/// Appends one lowercase hexadecimal digit to `s`.
fn push_hex_digit(s: &mut String, d: u8)
    requires
        d < 16,
    ensures
        final(s)@ == old(s)@ + seq![hex_digit(d as nat)],
{
    proof {
        reveal_strlit("0");
        reveal_strlit("1");
        reveal_strlit("2");
        reveal_strlit("3");
        reveal_strlit("4");
        reveal_strlit("5");
        reveal_strlit("6");
        reveal_strlit("7");
        reveal_strlit("8");
        reveal_strlit("9");
        reveal_strlit("a");
        reveal_strlit("b");
        reveal_strlit("c");
        reveal_strlit("d");
        reveal_strlit("e");
        reveal_strlit("f");
    }
    match d {
        0 => s.append("0"),
        1 => s.append("1"),
        2 => s.append("2"),
        3 => s.append("3"),
        4 => s.append("4"),
        5 => s.append("5"),
        6 => s.append("6"),
        7 => s.append("7"),
        8 => s.append("8"),
        9 => s.append("9"),
        10 => s.append("a"),
        11 => s.append("b"),
        12 => s.append("c"),
        13 => s.append("d"),
        14 => s.append("e"),
        _ => s.append("f"),
    }
    proof {
        assert(final(s)@ =~= old(s)@ + seq![hex_digit(d as nat)]);
    }
}

/// Appends the two hexadecimal digits of one channel to `s`.
fn push_hex_byte(s: &mut String, n: u8)
    ensures
        final(s)@ == old(s)@ + hex_byte(n as nat),
{
    push_hex_digit(s, n / 16);
    push_hex_digit(s, n % 16);
    proof {
        assert(final(s)@ =~= old(s)@ + hex_byte(n as nat));
    }
}

impl Asy for Color {
    open spec fn asy_wf(&self) -> bool {
        true
    }

    open spec fn asy_spec(&self, opt: AsyOptions) -> Seq<char> {
        color_text(*self)
    }

    fn transpile(&self, opt: &AsyOptions) -> (r: String) {
        match (self.red, self.green, self.blue) {
            (255, 192, 192) => String::from_str("palered"),
            (255, 128, 128) => String::from_str("lightred"),
            (255, 64, 64) => String::from_str("mediumred"),
            (255, 0, 0) => String::from_str("red"),
            (192, 0, 0) => String::from_str("heavyred"),
            (128, 0, 0) => String::from_str("brown"),
            (64, 0, 0) => String::from_str("darkbrown"),
            (192, 255, 192) => String::from_str("palegreen"),
            (128, 255, 128) => String::from_str("lightgreen"),
            (64, 255, 64) => String::from_str("mediumgreen"),
            (0, 255, 0) => String::from_str("green"),
            (0, 192, 0) => String::from_str("heavygreen"),
            (0, 128, 0) => String::from_str("deepgreen"),
            (0, 64, 0) => String::from_str("darkgreen"),
            (192, 192, 255) => String::from_str("paleblue"),
            (128, 128, 255) => String::from_str("lightblue"),
            (64, 64, 255) => String::from_str("mediumblue"),
            (0, 0, 255) => String::from_str("blue"),
            (0, 0, 192) => String::from_str("heavyblue"),
            (0, 0, 128) => String::from_str("deepblue"),
            (0, 0, 64) => String::from_str("darkblue"),
            (192, 255, 255) => String::from_str("palecyan"),
            (128, 255, 255) => String::from_str("lightcyan"),
            (64, 255, 255) => String::from_str("mediumcyan"),
            (0, 192, 192) => String::from_str("heavycyan"),
            (0, 128, 128) => String::from_str("deepcyan"),
            (0, 64, 64) => String::from_str("darkcyan"),
            (255, 192, 255) => String::from_str("pink"),
            (255, 128, 255) => String::from_str("lightmagenta"),
            (255, 64, 255) => String::from_str("mediummagenta"),
            (255, 0, 255) => String::from_str("magenta"),
            (192, 0, 192) => String::from_str("heavymagenta"),
            (128, 0, 128) => String::from_str("deepmagenta"),
            (64, 0, 64) => String::from_str("darkmagenta"),
            (255, 255, 192) => String::from_str("paleyellow"),
            (255, 255, 128) => String::from_str("lightyellow"),
            (255, 255, 64) => String::from_str("mediumyellow"),
            (255, 255, 0) => String::from_str("yellow"),
            (192, 192, 0) => String::from_str("lightolive"),
            (128, 128, 0) => String::from_str("olive"),
            (64, 64, 0) => String::from_str("darkolive"),
            (243, 243, 243) => String::from_str("palegray"),
            (230, 230, 230) => String::from_str("lightgray"),
            (192, 192, 192) => String::from_str("mediumgray"),
            (128, 128, 128) => String::from_str("gray"),
            (12, 12, 12) => String::from_str("darkgray"),
            (0, 0, 0) => String::from_str("black"),
            (255, 255, 255) => String::from_str("white"),
            (255, 128, 0) => String::from_str("orange"),
            (255, 0, 128) => String::from_str("fuchsia"),
            (128, 255, 0) => String::from_str("chartreuse"),
            (0, 255, 128) => String::from_str("springgreen"),
            (128, 0, 255) => String::from_str("purple"),
            (0, 128, 255) => String::from_str("royalblue"),
            _ => {
                let mut s = String::from_str("rgb(\"");
                push_hex_byte(&mut s, self.red);
                push_hex_byte(&mut s, self.green);
                push_hex_byte(&mut s, self.blue);
                s.append("\")");
                proof {
                    assert(s@ =~= color_text(*self));
                }
                s
            },
        }
    }
}

} // verus!
