use termcore::cell::{clear_span, write_glyph, Cell};
use termcore::config::{to_color, Config, Shape};
use termcore::control::{C1, Control, Csi, Erase, Expansion, ParseResult, Sgr, SgrColor, SixelColor, SixelCommand};
use termcore::cursor::{Cursor, Travel};
use termcore::parser::parse;
use termcore::style::{Rgba, Style};
use termcore::terminal::Terminal;
use termcore::touched::Touched;

fn csi_of(r: ParseResult) -> (usize, Csi) {
    match r {
        ParseResult::Done(n, Control::C1(C1::ControlSequence(c))) => (n, c),
        other => panic!("expected a CSI item, got {:?}", other),
    }
}

#[test]
fn text_run_is_taken_whole() {
    match parse(b"Hi") {
        ParseResult::Done(n, Control::Text(t)) => {
            assert_eq!(n, 2);
            assert_eq!(t, vec![b'H', b'i']);
        }
        other => panic!("unexpected {:?}", other),
    }
}

#[test]
fn text_run_stops_at_controls() {
    match parse(b"Hi\r\n") {
        ParseResult::Done(n, Control::Text(t)) => {
            assert_eq!(n, 2);
            assert_eq!(t, b"Hi".to_vec());
        }
        other => panic!("unexpected {:?}", other),
    }
}

#[test]
fn cursor_position_is_zero_based() {
    let (n, c) = csi_of(parse(b"\x1b[10;5H"));
    assert_eq!(n, 7);
    match c {
        Csi::CursorPosition { x, y } => {
            assert_eq!((x, y), (4, 9));
        }
        other => panic!("unexpected {:?}", other),
    }
}

#[test]
fn sgr_red_decodes_to_palette_entry_one() {
    let (_, c) = csi_of(parse(b"\x1b[31m"));
    match c {
        Csi::SelectGraphicalRendition(attrs) => {
            assert_eq!(attrs.len(), 1);
            assert!(matches!(attrs[0], Sgr::Foreground(SgrColor::Index(1))));
        }
        other => panic!("unexpected {:?}", other),
    }
}

#[test]
fn sgr_reset_decodes() {
    let (_, c) = csi_of(parse(b"\x1b[0m"));
    match c {
        Csi::SelectGraphicalRendition(attrs) => {
            assert!(matches!(attrs[0], Sgr::Reset));
        }
        other => panic!("unexpected {:?}", other),
    }
}

#[test]
fn private_cursor_visibility_modes() {
    let (_, c) = csi_of(parse(b"\x1b[?25l"));
    match c {
        Csi::Private(f, ps) => {
            assert_eq!(f, 0x6c);
            assert_eq!(ps, vec![25]);
        }
        other => panic!("unexpected {:?}", other),
    }
    let (_, c) = csi_of(parse(b"\x1b[?25h"));
    match c {
        Csi::Private(f, ps) => {
            assert_eq!(f, 0x68);
            assert_eq!(ps, vec![25]);
        }
        other => panic!("unexpected {:?}", other),
    }
}

#[test]
fn erase_line_all_decodes() {
    let (_, c) = csi_of(parse(b"\x1b[2K"));
    assert!(matches!(c, Csi::EraseLine(Erase::All)));
}

#[test]
fn incomplete_sequences_wait_for_more() {
    assert!(matches!(parse(b"\x1b"), ParseResult::Incomplete));
    assert!(matches!(parse(b"\x1b["), ParseResult::Incomplete));
    assert!(matches!(parse(b"\x1b[10;5"), ParseResult::Incomplete));
    assert!(matches!(parse(b"\x1b]0;title"), ParseResult::Incomplete));
}

#[test]
fn split_utf8_tail_is_held_back() {
    // A lone lead byte of a multi-byte character is not consumed yet.
    assert!(matches!(parse(&[0xe4]), ParseResult::Incomplete));
    // The complete prefix is handed out; the lead byte stays for later.
    match parse(&[b'A', 0xe4]) {
        ParseResult::Done(n, Control::Text(t)) => {
            assert_eq!(n, 1);
            assert_eq!(t, vec![b'A']);
        }
        other => panic!("unexpected {:?}", other),
    }
    // A complete multi-byte character is consumed whole.
    match parse("世".as_bytes()) {
        ParseResult::Done(n, Control::Text(t)) => {
            assert_eq!(n, 3);
            assert_eq!(t, "世".as_bytes().to_vec());
        }
        other => panic!("unexpected {:?}", other),
    }
}

#[test]
fn osc_title_payload() {
    match parse(b"\x1b]0;hello\x07") {
        ParseResult::Done(n, Control::C1(C1::OperatingSystemCommand(p))) => {
            assert_eq!(n, 10);
            assert_eq!(p, b"0;hello".to_vec());
        }
        other => panic!("unexpected {:?}", other),
    }
}

#[test]
fn expansion_selector_bounds() {
    assert_eq!(Expansion::parse(0), Ok(Expansion::Normal));
    assert_eq!(Expansion::parse(1), Ok(Expansion::Expanded));
    assert_eq!(Expansion::parse(2), Ok(Expansion::Condensed));
    assert!(Expansion::parse(3).is_err());
}

#[test]
fn hex_colors_parse() {
    assert_eq!(
        to_color(b"#102030"),
        Some(Rgba { r: 16, g: 32, b: 48, a: 255 })
    );
    assert_eq!(
        to_color(b"#00ff0080"),
        Some(Rgba { r: 0, g: 255, b: 0, a: 128 })
    );
    assert_eq!(to_color(b"#xyzxyz"), None);
    assert_eq!(to_color(b"red"), None);
}

#[test]
fn palette_entry_one_is_red() {
    let cfg = Config::standard();
    assert_eq!(cfg.palette.len(), 256);
    assert_eq!(cfg.palette[1], Rgba { r: 205, g: 0, b: 0, a: 255 });
    assert_eq!(cfg.palette[255], Rgba { r: 238, g: 238, b: 238, a: 255 });
}

#[test]
fn cursor_travel_clamps_and_scrolls() {
    let style = Style::default();
    let bg = Rgba { r: 0, g: 0, b: 0, a: 255 };
    let mut c = Cursor::new(80, 24, style, Shape::Block, bg);
    assert_eq!(c.travel(Travel::Right(100)), 0);
    assert_eq!(c.x, 79);
    assert_eq!(c.travel(Travel::Position(Some(4), Some(9))), 0);
    assert_eq!((c.x, c.y), (4, 9));
    // Moving below the last row reports how many rows the grid must gain.
    assert_eq!(c.travel(Travel::Down(20)), 6);
    assert_eq!(c.y, 23);
    assert_eq!(c.travel(Travel::Up(100)), 0);
    assert_eq!(c.y, 0);
}

#[test]
fn saved_cursor_restores_identically() {
    let style = Style::default();
    let bg = Rgba { r: 0, g: 0, b: 0, a: 255 };
    let mut c = Cursor::new(80, 24, style, Shape::Block, bg);
    c.travel(Travel::Position(Some(7), Some(3)));
    let saved = c;
    c.travel(Travel::Down(5));
    c.travel(Travel::Right(2));
    c = saved;
    assert_eq!((c.x, c.y), (7, 3));
    assert_eq!(c, saved);
}

#[test]
fn touched_drain_covers_marks_and_lines() {
    let mut t = Touched::new(4, 3);
    t.mark(1, 2);
    t.line(0);
    assert!(t.is_covered(1, 2));
    assert!(t.is_covered(3, 0));
    assert!(!t.is_covered(0, 1));
    let dirty = t.drain(4, 3);
    assert!(dirty.contains(&(1, 2)));
    assert!(dirty.contains(&(0, 0)));
    assert!(dirty.contains(&(3, 0)));
    assert!(!dirty.contains(&(0, 1)));
    // No duplicates.
    for i in 0..dirty.len() {
        for j in i + 1..dirty.len() {
            assert_ne!(dirty[i], dirty[j]);
        }
    }
    // Empty after the drain.
    let again = t.drain(4, 3);
    assert!(again.is_empty());
}

#[test]
fn open_builds_an_empty_grid() {
    let t = Terminal::open(Config::standard(), 80, 24);
    assert_eq!(t.columns(), 80);
    assert_eq!(t.rows(), 24);
    assert!(t.mode().wrap);
    assert!(!t.mode().insert);
    let p = t.get(0, 0);
    assert!(p.is_empty());
    assert!(p.value().is_none());
}

#[test]
fn blinking_reports_no_cells_on_a_fresh_grid() {
    let mut t = Terminal::open(Config::standard(), 10, 4);
    let dirty = t.blinking(true);
    assert!(dirty.is_empty());
    assert!(t.mode().blink);
    let dirty = t.blinking(false);
    assert!(dirty.is_empty());
    assert!(!t.mode().blink);
}

#[test]
fn iter_skips_continuation_cells() {
    let t = Terminal::open(Config::standard(), 5, 2);
    let cells = t.iter(0, 0, 5, 2);
    assert_eq!(cells.len(), 10);
}

#[test]
fn wide_glyph_lays_down_continuations() {
    let style = Style::default();
    let mut row: Vec<Cell> = (0..4).map(|_| Cell::empty(style)).collect();
    write_glyph(&mut row, 0, 2, "世".to_string(), style);
    assert!(row[0].is_occupied());
    assert_eq!(row[0].width(), 2);
    assert_eq!(row[0].value().unwrap().as_str(), "世");
    assert!(row[1].is_reference());
    assert!(row[2].is_empty());
    // Clearing any column of the glyph clears the whole glyph.
    clear_span(&mut row, 1, 2, style);
    assert!(row[0].is_empty());
    assert!(row[1].is_empty());
}

#[test]
fn overwriting_a_wide_base_resets_its_tail() {
    let style = Style::default();
    let mut row: Vec<Cell> = (0..4).map(|_| Cell::empty(style)).collect();
    write_glyph(&mut row, 0, 2, "世".to_string(), style);
    write_glyph(&mut row, 0, 1, "a".to_string(), style);
    assert!(row[0].is_occupied());
    assert_eq!(row[0].value().unwrap(), "a");
    assert!(row[1].is_empty());
}

#[test]
fn sixel_stream_parses_commands() {
    match parse(b"\x1bP0;1q#1;2;10;20;30#1~-~\x1b\\") {
        ParseResult::Done(_, Control::Sixel(h, cmds)) => {
            assert_eq!(h.aspect_num, 2);
            assert_eq!(h.aspect_den, 1);
            assert!(!h.background);
            assert_eq!(
                cmds,
                vec![
                    SixelCommand::Define(1, SixelColor::Rgb(10, 20, 30)),
                    SixelCommand::Enable(1),
                    SixelCommand::Draw(0x7e - 0x3f),
                    SixelCommand::Next,
                    SixelCommand::Draw(0x7e - 0x3f),
                ]
            );
        }
        other => panic!("unexpected {:?}", other),
    }
}
