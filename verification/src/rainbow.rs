use vstd::prelude::*;
use vstd::string::StringExecFns;
use crate::text::{dec_digits, push_u32_decimal};

verus! {

/// A terminal color: a named hue or an explicit RGB triple.
#[derive(Copy, Clone)]
pub enum Color {
    RGB(u8, u8, u8),
    Red,
    Orange,
    Yellow,
    Green,
    Cyan,
    Blue,
    Purple,
}

impl Color {
    /// The RGB triple the color stands for.
    pub open spec fn spec_rgb(self) -> (u8, u8, u8) {
        match self {
            Color::RGB(r, g, b) => (r, g, b),
            Color::Red => (255, 0, 0),
            Color::Orange => (255, 165, 0),
            Color::Yellow => (255, 255, 0),
            Color::Green => (0, 128, 0),
            Color::Cyan => (0, 255, 255),
            Color::Blue => (0, 0, 255),
            Color::Purple => (128, 0, 128),
        }
    }

    /// The RGB components of the color.
    pub fn rgb(self) -> (r: (u8, u8, u8))
        ensures
            r == self.spec_rgb(),
    {
        match self {
            Color::RGB(r, g, b) => (r, g, b),
            Color::Red => (255, 0, 0),
            Color::Orange => (255, 165, 0),
            Color::Yellow => (255, 255, 0),
            Color::Green => (0, 128, 0),
            Color::Cyan => (0, 255, 255),
            Color::Blue => (0, 0, 255),
            Color::Purple => (128, 0, 128),
        }
    }
}

/// The escape text that restores the terminal's default style.
pub open spec fn spec_reset() -> Seq<char> {
    seq!['\u{1b}', '[', '0', 'm']
}

/// The text wrapped in a 24-bit foreground color escape.
pub open spec fn spec_fg(s: Seq<char>, c: Color) -> Seq<char> {
    seq!['\u{1b}', '[', '3', '8', ';', '2', ';'] + dec_digits(c.spec_rgb().0 as int) + seq![';']
        + dec_digits(c.spec_rgb().1 as int) + seq![';'] + dec_digits(c.spec_rgb().2 as int) + seq![
        'm',
    ] + s + spec_reset()
}

/// The text wrapped in a 24-bit background color escape.
pub open spec fn spec_bg(s: Seq<char>, c: Color) -> Seq<char> {
    seq!['\u{1b}', '[', '4', '8', ';', '2', ';'] + dec_digits(c.spec_rgb().0 as int) + seq![';']
        + dec_digits(c.spec_rgb().1 as int) + seq![';'] + dec_digits(c.spec_rgb().2 as int) + seq![
        'm',
    ] + s + spec_reset()
}

/// The text wrapped in a one-digit style escape (bold, italic, underline).
pub open spec fn spec_wrap(s: Seq<char>, code: char) -> Seq<char> {
    seq!['\u{1b}', '[', code, 'm'] + s + spec_reset()
}

fn append_rgb(out: &mut String, color: Color)
    ensures
        final(out)@ == old(out)@ + dec_digits(color.spec_rgb().0 as int) + seq![';'] + dec_digits(
            color.spec_rgb().1 as int,
        ) + seq![';'] + dec_digits(color.spec_rgb().2 as int),
{
    let (r, g, b) = color.rgb();
    proof {
        reveal_strlit(";");
        assert(";"@ =~= seq![';']);
    }
    push_u32_decimal(out, r as u32);
    out.append(";");
    push_u32_decimal(out, g as u32);
    out.append(";");
    push_u32_decimal(out, b as u32);
}

fn fg_text(s: &str, color: Color) -> (r: String)
    ensures
        r@ == spec_fg(s@, color),
{
    proof {
        reveal_strlit("\u{1b}[38;2;");
        assert("\u{1b}[38;2;"@ =~= seq!['\u{1b}', '[', '3', '8', ';', '2', ';']);
        reveal_strlit("m");
        assert("m"@ =~= seq!['m']);
        reveal_strlit("\u{1b}[0m");
        assert("\u{1b}[0m"@ =~= spec_reset());
    }
    let mut out = String::new();
    out.append("\u{1b}[38;2;");
    append_rgb(&mut out, color);
    out.append("m");
    out.append(s);
    out.append("\u{1b}[0m");
    proof {
        assert(out@ =~= spec_fg(s@, color));
    }
    out
}

fn bg_text(s: &str, color: Color) -> (r: String)
    ensures
        r@ == spec_bg(s@, color),
{
    proof {
        reveal_strlit("\u{1b}[48;2;");
        assert("\u{1b}[48;2;"@ =~= seq!['\u{1b}', '[', '4', '8', ';', '2', ';']);
        reveal_strlit("m");
        assert("m"@ =~= seq!['m']);
        reveal_strlit("\u{1b}[0m");
        assert("\u{1b}[0m"@ =~= spec_reset());
    }
    let mut out = String::new();
    out.append("\u{1b}[48;2;");
    append_rgb(&mut out, color);
    out.append("m");
    out.append(s);
    out.append("\u{1b}[0m");
    proof {
        assert(out@ =~= spec_bg(s@, color));
    }
    out
}

fn wrap_text(s: &str, prefix: &str, code: char) -> (r: String)
    requires
        prefix@ == seq!['\u{1b}', '[', code, 'm'],
    ensures
        r@ == spec_wrap(s@, code),
{
    proof {
        reveal_strlit("\u{1b}[0m");
        assert("\u{1b}[0m"@ =~= spec_reset());
    }
    let mut out = String::new();
    out.append(prefix);
    out.append(s);
    out.append("\u{1b}[0m");
    proof {
        assert(out@ =~= spec_wrap(s@, code));
    }
    out
}

/// Text that can be styled for a terminal with ANSI escapes.
pub trait Colorful<T: View<V = Seq<char>>>: View<V = Seq<char>> {
    /// The text wrapped in a foreground color escape.
    fn fg(&self, color: Color) -> (r: T)
        ensures
            r@ == spec_fg(self@, color),
    ;

    /// The text wrapped in a background color escape.
    fn bg(&self, color: Color) -> (r: T)
        ensures
            r@ == spec_bg(self@, color),
    ;

    /// The text in bold.
    fn bold(&self) -> (r: T)
        ensures
            r@ == spec_wrap(self@, '1'),
    ;

    /// The text in italics.
    fn italic(&self) -> (r: T)
        ensures
            r@ == spec_wrap(self@, '3'),
    ;

    /// The text underlined.
    fn underline(&self) -> (r: T)
        ensures
            r@ == spec_wrap(self@, '4'),
    ;
}

impl Colorful<String> for String {
    fn fg(&self, color: Color) -> (r: String) {
        fg_text(self.as_str(), color)
    }

    fn bg(&self, color: Color) -> (r: String) {
        bg_text(self.as_str(), color)
    }

    fn bold(&self) -> (r: String) {
        proof {
            reveal_strlit("\u{1b}[1m");
            assert("\u{1b}[1m"@ =~= seq!['\u{1b}', '[', '1', 'm']);
        }
        wrap_text(self.as_str(), "\u{1b}[1m", '1')
    }

    fn italic(&self) -> (r: String) {
        proof {
            reveal_strlit("\u{1b}[3m");
            assert("\u{1b}[3m"@ =~= seq!['\u{1b}', '[', '3', 'm']);
        }
        wrap_text(self.as_str(), "\u{1b}[3m", '3')
    }

    fn underline(&self) -> (r: String) {
        proof {
            reveal_strlit("\u{1b}[4m");
            assert("\u{1b}[4m"@ =~= seq!['\u{1b}', '[', '4', 'm']);
        }
        wrap_text(self.as_str(), "\u{1b}[4m", '4')
    }
}

impl Colorful<String> for str {
    fn fg(&self, color: Color) -> (r: String) {
        fg_text(self, color)
    }

    fn bg(&self, color: Color) -> (r: String) {
        bg_text(self, color)
    }

    fn bold(&self) -> (r: String) {
        proof {
            reveal_strlit("\u{1b}[1m");
            assert("\u{1b}[1m"@ =~= seq!['\u{1b}', '[', '1', 'm']);
        }
        wrap_text(self, "\u{1b}[1m", '1')
    }

    fn italic(&self) -> (r: String) {
        proof {
            reveal_strlit("\u{1b}[3m");
            assert("\u{1b}[3m"@ =~= seq!['\u{1b}', '[', '3', 'm']);
        }
        wrap_text(self, "\u{1b}[3m", '3')
    }

    fn underline(&self) -> (r: String) {
        proof {
            reveal_strlit("\u{1b}[4m");
            assert("\u{1b}[4m"@ =~= seq!['\u{1b}', '[', '4', 'm']);
        }
        wrap_text(self, "\u{1b}[4m", '4')
    }
}

} // verus!
