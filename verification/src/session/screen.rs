//! Repainting a terminal screen: the escape sequence that draws every cell of the
//! screen with its colours and attributes, then puts the cursor back. A client that
//! attaches mid-session gets this instead of the whole history.
//!
//! The screen is held as plain values (the terminal emulator that fills it keeps its
//! own grid); drawing starts from a reset and a cleared screen, hides the cursor while
//! painting, and only emits an SGR sequence when it differs from the last one.
use vstd::prelude::*;
use crate::text::{decimal_text, spec_decimal, str_eq, string_of};

verus! {

/// A colour by name, as the terminal emulator names them: the sixteen ANSI colours
/// and the special ones (default foreground and background, cursor, dim variants).
#[derive(Debug, Clone, Copy, PartialEq, Eq, Structural)]
pub enum NamedColor {
    Black,
    Red,
    Green,
    Yellow,
    Blue,
    Magenta,
    Cyan,
    White,
    BrightBlack,
    BrightRed,
    BrightGreen,
    BrightYellow,
    BrightBlue,
    BrightMagenta,
    BrightCyan,
    BrightWhite,
    Foreground,
    Background,
    Cursor,
    DimBlack,
    DimRed,
    DimGreen,
    DimYellow,
    DimBlue,
    DimMagenta,
    DimCyan,
    DimWhite,
    BrightForeground,
    DimForeground,
}

/// A cell's colour: named, one of the 256 indexed colours, or true colour.
#[derive(Debug, Clone, Copy, PartialEq, Eq, Structural)]
pub enum Color {
    Named(NamedColor),
    Indexed(u8),
    Spec(u8, u8, u8),
}

/// A cell's attributes. `underline` stands for every underline style (double, curly,
/// dotted, dashed draw as a plain underline); `wide_spacer` marks the cell that the
/// second half of a wide character occupies, which is not drawn.
#[derive(Debug, Clone, Copy, PartialEq, Eq, Structural)]
pub struct CellFlags {
    pub bold: bool,
    pub dim: bool,
    pub italic: bool,
    pub underline: bool,
    pub inverse: bool,
    pub strikeout: bool,
    pub hidden: bool,
    pub wide_spacer: bool,
}

#[derive(Debug, Clone, Copy, PartialEq, Eq, Structural)]
pub struct Cell {
    pub c: char,
    pub fg: Color,
    pub bg: Color,
    pub flags: CellFlags,
}

/// What a repaint reads of a terminal: its lines of cells, top first, the cursor
/// (0-based) and whether the cursor is shown.
pub struct Screen {
    pub lines: Vec<Vec<Cell>>,
    pub cursor_line: u16,
    pub cursor_col: u16,
    pub show_cursor: bool,
}

/// The place of an ANSI colour among the eight, and whether it is the bright one;
/// `None` for the special colours.
pub open spec fn base_index(n: NamedColor) -> Option<(u8, bool)> {
    match n {
        NamedColor::Black => Some((0u8, false)),
        NamedColor::Red => Some((1u8, false)),
        NamedColor::Green => Some((2u8, false)),
        NamedColor::Yellow => Some((3u8, false)),
        NamedColor::Blue => Some((4u8, false)),
        NamedColor::Magenta => Some((5u8, false)),
        NamedColor::Cyan => Some((6u8, false)),
        NamedColor::White => Some((7u8, false)),
        NamedColor::BrightBlack => Some((0u8, true)),
        NamedColor::BrightRed => Some((1u8, true)),
        NamedColor::BrightGreen => Some((2u8, true)),
        NamedColor::BrightYellow => Some((3u8, true)),
        NamedColor::BrightBlue => Some((4u8, true)),
        NamedColor::BrightMagenta => Some((5u8, true)),
        NamedColor::BrightCyan => Some((6u8, true)),
        NamedColor::BrightWhite => Some((7u8, true)),
        _ => None,
    }
}

fn base_index_of(n: NamedColor) -> (r: Option<(u8, bool)>)
    ensures
        r == base_index(n),
{
    match n {
        NamedColor::Black => Some((0u8, false)),
        NamedColor::Red => Some((1u8, false)),
        NamedColor::Green => Some((2u8, false)),
        NamedColor::Yellow => Some((3u8, false)),
        NamedColor::Blue => Some((4u8, false)),
        NamedColor::Magenta => Some((5u8, false)),
        NamedColor::Cyan => Some((6u8, false)),
        NamedColor::White => Some((7u8, false)),
        NamedColor::BrightBlack => Some((0u8, true)),
        NamedColor::BrightRed => Some((1u8, true)),
        NamedColor::BrightGreen => Some((2u8, true)),
        NamedColor::BrightYellow => Some((3u8, true)),
        NamedColor::BrightBlue => Some((4u8, true)),
        NamedColor::BrightMagenta => Some((5u8, true)),
        NamedColor::BrightCyan => Some((6u8, true)),
        NamedColor::BrightWhite => Some((7u8, true)),
        _ => None,
    }
}

/// The SGR parameters of a colour, as foreground (`fg`) or background: 30–37 and
/// 90–97 (40–47, 100–107) for the ANSI colours, 39 (49) for any special one,
/// `38;5;i` (`48;5;i`) for an indexed one, `38;2;r;g;b` (`48;2;r;g;b`) for true colour.
pub open spec fn spec_color_params(c: Color, fg: bool) -> Seq<char> {
    let ext = if fg {
        "38"@
    } else {
        "48"@
    };
    match c {
        Color::Named(n) => match base_index(n) {
            Some((i, false)) => spec_decimal(((if fg { 30nat } else { 40nat }) + i) as nat),
            Some((i, true)) => spec_decimal(((if fg { 90nat } else { 100nat }) + i) as nat),
            None => if fg {
                "39"@
            } else {
                "49"@
            },
        },
        Color::Indexed(i) => ext + ";5;"@ + spec_decimal(i as nat),
        Color::Spec(r, g, b) => ext + ";2;"@ + spec_decimal(r as nat) + ";"@ + spec_decimal(g as nat) + ";"@
            + spec_decimal(b as nat),
    }
}

pub fn color_params(c: Color, fg: bool) -> (r: String)
    ensures
        r@ == spec_color_params(c, fg),
{
    let mut out = if fg {
        String::from_str("38")
    } else {
        String::from_str("48")
    };
    match c {
        Color::Named(n) => match base_index_of(n) {
            Some((i, bright)) => {
                let base: u64 = if bright {
                    if fg {
                        90
                    } else {
                        100
                    }
                } else {
                    if fg {
                        30
                    } else {
                        40
                    }
                };
                decimal_text(base + i as u64)
            },
            None => if fg {
                String::from_str("39")
            } else {
                String::from_str("49")
            },
        },
        Color::Indexed(i) => {
            out.append(";5;");
            let t = decimal_text(i as u64);
            out.append(t.as_str());
            out
        },
        Color::Spec(r, g, b) => {
            out.append(";2;");
            let t = decimal_text(r as u64);
            out.append(t.as_str());
            out.append(";");
            let t = decimal_text(g as u64);
            out.append(t.as_str());
            out.append(";");
            let t = decimal_text(b as u64);
            out.append(t.as_str());
            out
        },
    }
}

/// `;p` when `on`, nothing otherwise.
pub open spec fn flag_param(on: bool, p: Seq<char>) -> Seq<char> {
    if on {
        ";"@ + p
    } else {
        Seq::empty()
    }
}

/// The SGR sequence that sets a cell's look from a reset: its attributes in the order
/// bold, dim, italic, underline, inverse, strikeout, hidden, then its foreground and
/// background colours.
pub open spec fn spec_sgr(c: Cell) -> Seq<char> {
    "\x1b[0"@ + flag_param(c.flags.bold, "1"@) + flag_param(c.flags.dim, "2"@) + flag_param(c.flags.italic, "3"@)
        + flag_param(c.flags.underline, "4"@) + flag_param(c.flags.inverse, "7"@) + flag_param(
        c.flags.strikeout,
        "9"@,
    ) + flag_param(c.flags.hidden, "8"@) + ";"@ + spec_color_params(c.fg, true) + ";"@ + spec_color_params(
        c.bg,
        false,
    ) + "m"@
}

fn push_flag(out: &mut String, on: bool, p: &str)
    ensures
        final(out)@ == old(out)@ + flag_param(on, p@),
{
    if on {
        out.append(";");
        out.append(p);
    }
}

pub fn sgr_string(c: &Cell) -> (r: String)
    ensures
        r@ == spec_sgr(*c),
{
    let mut out = String::from_str("\x1b[0");
    push_flag(&mut out, c.flags.bold, "1");
    push_flag(&mut out, c.flags.dim, "2");
    push_flag(&mut out, c.flags.italic, "3");
    push_flag(&mut out, c.flags.underline, "4");
    push_flag(&mut out, c.flags.inverse, "7");
    push_flag(&mut out, c.flags.strikeout, "9");
    push_flag(&mut out, c.flags.hidden, "8");
    out.append(";");
    let f = color_params(c.fg, true);
    out.append(f.as_str());
    out.append(";");
    let b = color_params(c.bg, false);
    out.append(b.as_str());
    out.append("m");
    out
}

/// The character a cell shows: an empty cell (NUL) is a space.
pub open spec fn shown(c: char) -> char {
    if c == '\0' {
        ' '
    } else {
        c
    }
}

/// Drawing one more cell onto `(out, last)`, `last` being the SGR in effect: a
/// wide character's spacer is skipped; otherwise the cell's SGR is written when it
/// differs from `last`, then its character.
pub open spec fn step(st: (Seq<char>, Seq<char>), c: Cell) -> (Seq<char>, Seq<char>) {
    if c.flags.wide_spacer {
        st
    } else {
        let s = spec_sgr(c);
        let out = if s != st.1 {
            st.0 + s
        } else {
            st.0
        };
        (out + seq![shown(c.c)], s)
    }
}

/// Drawing the cells of a line, left to right, from `st`.
pub open spec fn paint_cells(st: (Seq<char>, Seq<char>), cs: Seq<Cell>) -> (Seq<char>, Seq<char>)
    decreases cs.len(),
{
    if cs.len() == 0 {
        st
    } else {
        step(paint_cells(st, cs.drop_last()), cs.last())
    }
}

/// What starts a repaint: reset, hide the cursor, clear, go home.
pub open spec fn prelude() -> Seq<char> {
    "\x1b[0m\x1b[?25l\x1b[2J\x1b[H"@
}

/// The cursor move to the start of line `n` (1-based).
pub open spec fn line_start(n: nat) -> Seq<char> {
    "\x1b["@ + spec_decimal(n) + ";1H"@
}

/// Drawing the lines, top first: each from its first column, the SGR in effect
/// carried from one line to the next.
pub open spec fn paint_lines(ls: Seq<Vec<Cell>>) -> (Seq<char>, Seq<char>)
    decreases ls.len(),
{
    if ls.len() == 0 {
        (prelude(), Seq::empty())
    } else {
        let st = paint_lines(ls.drop_last());
        paint_cells((st.0 + line_start(ls.len()), st.1), ls.last()@)
    }
}

/// The whole repaint: the lines, a reset, the cursor put back (1-based), and the
/// cursor shown again when the terminal shows it.
pub open spec fn spec_repaint(s: Screen) -> Seq<char> {
    paint_lines(s.lines@).0 + "\x1b[0m"@ + "\x1b["@ + spec_decimal(s.cursor_line as nat + 1) + ";"@
        + spec_decimal(s.cursor_col as nat + 1) + "H"@ + if s.show_cursor {
        "\x1b[?25h"@
    } else {
        Seq::empty()
    }
}

proof fn lemma_paint_cells_step(st: (Seq<char>, Seq<char>), cs: Seq<Cell>, i: int)
    requires
        0 <= i < cs.len(),
    ensures
        paint_cells(st, cs.subrange(0, i + 1)) == step(paint_cells(st, cs.subrange(0, i)), cs[i]),
{
    assert(cs.subrange(0, i + 1).drop_last() =~= cs.subrange(0, i));
}

proof fn lemma_paint_lines_step(ls: Seq<Vec<Cell>>, i: int)
    requires
        0 <= i < ls.len(),
    ensures
        paint_lines(ls.subrange(0, i + 1)) == ({
            let st = paint_lines(ls.subrange(0, i));
            paint_cells((st.0 + line_start((i + 1) as nat), st.1), ls[i]@)
        }),
{
    assert(ls.subrange(0, i + 1).drop_last() =~= ls.subrange(0, i));
}

/// Draws the cells of one line onto `out`, `last` being the SGR in effect.
fn paint_line(out: &mut String, last: &mut String, cs: &Vec<Cell>)
    ensures
        (final(out)@, final(last)@) == paint_cells((old(out)@, old(last)@), cs@),
{
    let ghost st0 = (out@, last@);
    let mut i: usize = 0;
    while i < cs.len()
        invariant
            i <= cs.len(),
            (out@, last@) == paint_cells(st0, cs@.subrange(0, i as int)),
        decreases cs.len() - i,
    {
        proof {
            lemma_paint_cells_step(st0, cs@, i as int);
        }
        let c = cs[i];
        if !c.flags.wide_spacer {
            let s = sgr_string(&c);
            if !str_eq(s.as_str(), last.as_str()) {
                out.append(s.as_str());
            }
            let ch = if c.c == '\0' {
                ' '
            } else {
                c.c
            };
            let v: Vec<char> = vec![ch];
            let one = string_of(v.as_slice());
            out.append(one.as_str());
            *last = s;
        }
        i = i + 1;
    }
    assert(cs@.subrange(0, cs.len() as int) =~= cs@);
}

/// The bytes that redraw `s` on a blank terminal, as text: see [`spec_repaint`].
pub fn repaint(s: &Screen) -> (r: String)
    requires
        s.lines@.len() < u64::MAX,
    ensures
        r@ == spec_repaint(*s),
{
    let mut out = String::from_str("\x1b[0m\x1b[?25l\x1b[2J\x1b[H");
    let mut last = String::new();
    assert(s.lines@.subrange(0, 0) =~= Seq::<Vec<Cell>>::empty());
    let mut i: usize = 0;
    while i < s.lines.len()
        invariant
            i <= s.lines@.len(),
            s.lines@.len() < u64::MAX,
            (out@, last@) == paint_lines(s.lines@.subrange(0, i as int)),
        decreases s.lines.len() - i,
    {
        proof {
            lemma_paint_lines_step(s.lines@, i as int);
        }
        out.append("\x1b[");
        let n = decimal_text(i as u64 + 1);
        out.append(n.as_str());
        out.append(";1H");
        proof {
            let st = paint_lines(s.lines@.subrange(0, i as int));
            assert(out@ =~= st.0 + line_start((i + 1) as nat));
        }
        paint_line(&mut out, &mut last, &s.lines[i]);
        i = i + 1;
    }
    assert(s.lines@.subrange(0, s.lines.len() as int) =~= s.lines@);
    out.append("\x1b[0m");
    out.append("\x1b[");
    let l = decimal_text(s.cursor_line as u64 + 1);
    out.append(l.as_str());
    out.append(";");
    let c = decimal_text(s.cursor_col as u64 + 1);
    out.append(c.as_str());
    out.append("H");
    if s.show_cursor {
        out.append("\x1b[?25h");
    }
    out
}

/// The eight ANSI colours in their standard order (index 0 to 7).
pub open spec fn ansi_colors() -> Seq<NamedColor> {
    seq![
        NamedColor::Black,
        NamedColor::Red,
        NamedColor::Green,
        NamedColor::Yellow,
        NamedColor::Blue,
        NamedColor::Magenta,
        NamedColor::Cyan,
        NamedColor::White,
    ]
}

/// Their bright forms, in the same order.
pub open spec fn bright_ansi_colors() -> Seq<NamedColor> {
    seq![
        NamedColor::BrightBlack,
        NamedColor::BrightRed,
        NamedColor::BrightGreen,
        NamedColor::BrightYellow,
        NamedColor::BrightBlue,
        NamedColor::BrightMagenta,
        NamedColor::BrightCyan,
        NamedColor::BrightWhite,
    ]
}

/// The ANSI colour with index `i` (Black 0, Red 1, Green 2, Yellow 3, Blue 4,
/// Magenta 5, Cyan 6, White 7) is drawn with foreground `30 + i` and background
/// `40 + i`; its bright form with `90 + i` and `100 + i`. So distinct colours get
/// distinct parameters.
pub proof fn ansi_colours_have_their_standard_parameters(i: int)
    requires
        0 <= i < 8,
    ensures
        spec_color_params(Color::Named(ansi_colors()[i]), true) == spec_decimal((30 + i) as nat),
        spec_color_params(Color::Named(ansi_colors()[i]), false) == spec_decimal((40 + i) as nat),
        spec_color_params(Color::Named(bright_ansi_colors()[i]), true) == spec_decimal((90 + i) as nat),
        spec_color_params(Color::Named(bright_ansi_colors()[i]), false) == spec_decimal((100 + i) as nat),
{
    if i == 0 {
    } else if i == 1 {
    } else if i == 2 {
    } else if i == 3 {
    } else if i == 4 {
    } else if i == 5 {
    } else if i == 6 {
    } else {
    }
}

/// Different ANSI colours are drawn differently, in the foreground and the background.
pub proof fn distinct_ansi_colours_get_distinct_parameters(i: int, j: int)
    requires
        0 <= i < 8,
        0 <= j < 8,
        i != j,
    ensures
        spec_color_params(Color::Named(ansi_colors()[i]), true) != spec_color_params(Color::Named(ansi_colors()[j]), true),
        spec_color_params(Color::Named(ansi_colors()[i]), false) != spec_color_params(Color::Named(ansi_colors()[j]), false),
{
    ansi_colours_have_their_standard_parameters(i);
    ansi_colours_have_their_standard_parameters(j);
    crate::text::lemma_decimal_injective((30 + i) as nat, (30 + j) as nat);
    crate::text::lemma_decimal_injective((40 + i) as nat, (40 + j) as nat);
}

/// The special colours (default foreground and background, cursor, the dim ones)
/// are drawn with the default parameter: 39 as foreground, 49 as background.
pub proof fn special_colours_draw_as_the_default(n: NamedColor)
    requires
        !ansi_colors().contains(n),
        !bright_ansi_colors().contains(n),
    ensures
        spec_color_params(Color::Named(n), true) == "39"@,
        spec_color_params(Color::Named(n), false) == "49"@,
{
    assert(ansi_colors()[0] == NamedColor::Black);
    assert(ansi_colors()[1] == NamedColor::Red);
    assert(ansi_colors()[2] == NamedColor::Green);
    assert(ansi_colors()[3] == NamedColor::Yellow);
    assert(ansi_colors()[4] == NamedColor::Blue);
    assert(ansi_colors()[5] == NamedColor::Magenta);
    assert(ansi_colors()[6] == NamedColor::Cyan);
    assert(ansi_colors()[7] == NamedColor::White);
    assert(bright_ansi_colors()[0] == NamedColor::BrightBlack);
    assert(bright_ansi_colors()[1] == NamedColor::BrightRed);
    assert(bright_ansi_colors()[2] == NamedColor::BrightGreen);
    assert(bright_ansi_colors()[3] == NamedColor::BrightYellow);
    assert(bright_ansi_colors()[4] == NamedColor::BrightBlue);
    assert(bright_ansi_colors()[5] == NamedColor::BrightMagenta);
    assert(bright_ansi_colors()[6] == NamedColor::BrightCyan);
    assert(bright_ansi_colors()[7] == NamedColor::BrightWhite);
}

/// An indexed colour `i` is drawn as `38;5;i` (`48;5;i`), a true colour as
/// `38;2;r;g;b` (`48;2;r;g;b`).
pub proof fn extended_colours_name_their_value(i: u8, r: u8, g: u8, b: u8)
    ensures
        spec_color_params(Color::Indexed(i), true) == "38"@ + ";5;"@ + spec_decimal(i as nat),
        spec_color_params(Color::Indexed(i), false) == "48"@ + ";5;"@ + spec_decimal(i as nat),
        spec_color_params(Color::Spec(r, g, b), true) == "38"@ + ";2;"@ + spec_decimal(r as nat) + ";"@
            + spec_decimal(g as nat) + ";"@ + spec_decimal(b as nat),
        spec_color_params(Color::Spec(r, g, b), false) == "48"@ + ";2;"@ + spec_decimal(r as nat) + ";"@
            + spec_decimal(g as nat) + ";"@ + spec_decimal(b as nat),
{
}

/// A cell with no attributes, an ANSI foreground of index `i` and a special
/// background is set by `ESC[0;{30+i};49m`: green text on the default background
/// is `ESC[0;32;49m`.
pub proof fn a_plain_coloured_cell_sets_only_its_colours(c: Cell, i: int)
    requires
        0 <= i < 8,
        !c.flags.bold && !c.flags.dim && !c.flags.italic && !c.flags.underline,
        !c.flags.inverse && !c.flags.strikeout && !c.flags.hidden,
        c.fg == Color::Named(ansi_colors()[i]),
        c.bg == Color::Named(NamedColor::Background),
    ensures
        spec_sgr(c) == "\x1b[0"@ + ";"@ + spec_decimal((30 + i) as nat) + ";"@ + "49"@ + "m"@,
{
    ansi_colours_have_their_standard_parameters(i);
    special_colours_draw_as_the_default(NamedColor::Background);
    let e = Seq::<char>::empty();
    assert("\x1b[0"@ + e + e + e + e + e + e + e =~= "\x1b[0"@);
}

} // verus!
