use octoterm::session::screen::{color_params, repaint, sgr_string, Cell, CellFlags, Color, NamedColor, Screen};

fn plain() -> CellFlags {
    CellFlags {
        bold: false,
        dim: false,
        italic: false,
        underline: false,
        inverse: false,
        strikeout: false,
        hidden: false,
        wide_spacer: false,
    }
}

fn cell(c: char, fg: Color, bg: Color, flags: CellFlags) -> Cell {
    Cell { c, fg, bg, flags }
}

fn default_cell(c: char) -> Cell {
    cell(c, Color::Named(NamedColor::Foreground), Color::Named(NamedColor::Background), plain())
}

#[test]
fn colours_map_to_their_sgr_parameters() {
    assert_eq!(color_params(Color::Named(NamedColor::Red), true), "31");
    assert_eq!(color_params(Color::Named(NamedColor::Blue), false), "44");
    assert_eq!(color_params(Color::Named(NamedColor::BrightRed), true), "91");
    assert_eq!(color_params(Color::Named(NamedColor::BrightWhite), false), "107");
    assert_eq!(color_params(Color::Named(NamedColor::Foreground), true), "39");
    assert_eq!(color_params(Color::Named(NamedColor::DimRed), false), "49");
    assert_eq!(color_params(Color::Indexed(200), true), "38;5;200");
    assert_eq!(color_params(Color::Spec(1, 2, 3), false), "48;2;1;2;3");
}

#[test]
fn sgr_lists_attributes_then_colours() {
    assert_eq!(sgr_string(&default_cell('x')), "\x1b[0;39;49m");
    let mut f = plain();
    f.bold = true;
    let c = cell('x', Color::Named(NamedColor::Red), Color::Named(NamedColor::Blue), f);
    assert_eq!(sgr_string(&c), "\x1b[0;1;31;44m");
    let all = CellFlags {
        bold: true,
        dim: true,
        italic: true,
        underline: true,
        inverse: true,
        strikeout: true,
        hidden: true,
        wide_spacer: false,
    };
    let c = cell('x', Color::Indexed(7), Color::Spec(10, 20, 30), all);
    assert_eq!(sgr_string(&c), "\x1b[0;1;2;3;4;7;9;8;38;5;7;48;2;10;20;30m");
}

#[test]
fn repaint_draws_each_line_and_restores_the_cursor() {
    let mut spacer = plain();
    spacer.wide_spacer = true;
    let red = cell('i', Color::Named(NamedColor::Red), Color::Named(NamedColor::Background), plain());
    let screen = Screen {
        lines: vec![
            vec![default_cell('h'), red],
            vec![default_cell('\0'), cell('z', Color::Named(NamedColor::Green), Color::Named(NamedColor::Background), spacer)],
        ],
        cursor_line: 1,
        cursor_col: 0,
        show_cursor: true,
    };
    assert_eq!(
        repaint(&screen),
        "\x1b[0m\x1b[?25l\x1b[2J\x1b[H\x1b[1;1H\x1b[0;39;49mh\x1b[0;31;49mi\x1b[2;1H\x1b[0;39;49m \x1b[0m\x1b[2;1H\x1b[?25h"
    );
}

#[test]
fn an_unchanged_look_is_not_repeated() {
    let screen = Screen {
        lines: vec![vec![default_cell('a'), default_cell('b')], vec![default_cell('c')]],
        cursor_line: 0,
        cursor_col: 2,
        show_cursor: false,
    };
    assert_eq!(
        repaint(&screen),
        "\x1b[0m\x1b[?25l\x1b[2J\x1b[H\x1b[1;1H\x1b[0;39;49mab\x1b[2;1Hc\x1b[0m\x1b[1;3H"
    );
}

#[test]
fn repaint_restores_cursor_position() {
    // The 20x5 screen after "abc\x1b[3;4H": "abc" on the first line, the cursor on
    // line 3, column 4.
    let mut lines: Vec<Vec<Cell>> = (0..5).map(|_| (0..20).map(|_| default_cell('\0')).collect()).collect();
    lines[0][0] = default_cell('a');
    lines[0][1] = default_cell('b');
    lines[0][2] = default_cell('c');
    let screen = Screen { lines, cursor_line: 2, cursor_col: 3, show_cursor: true };
    let repaint = repaint(&screen);
    assert!(repaint.ends_with("\x1b[3;4H\x1b[?25h"), "got tail: {:?}", &repaint[repaint.len().saturating_sub(24)..]);
}
