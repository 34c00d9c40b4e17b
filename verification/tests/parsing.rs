use logview::parser::{Color, ColorMode, ColorParser};
use logview::string::{ColoredString, Effect, Style};

#[test]
fn parse_full_sequence() {
    let s = "\u{1b}[38;2;10;20;30;48;5;200;1m";
    let r = ColorParser::parse(s, 0);
    let (end, (fg, bg, sp)) = r.expect("full sequence must be recognized");
    assert_eq!(end, s.chars().count());
    assert_eq!(fg, Some(ColorMode::Base256(Color::Rgb(10, 20, 30))));
    assert_eq!(bg, Some(ColorMode::Base256(Color::Base(200))));
    assert_eq!(sp, Some(1));
}

#[test]
fn parse_reset_only() {
    let r = ColorParser::parse("\u{1b}[m", 0);
    assert_eq!(r, Some((3, (None, None, None))));
}

#[test]
fn parse_defaults_and_zero() {
    let r = ColorParser::parse("\u{1b}[39;49;0m", 0);
    let (end, (fg, bg, sp)) = r.unwrap();
    assert_eq!(end, 10);
    assert_eq!(fg, Some(ColorMode::Default));
    assert_eq!(bg, Some(ColorMode::Default));
    assert_eq!(sp, Some(0));
}

#[test]
fn parse_standard_16_colors() {
    let (_, (fg, bg, sp)) = ColorParser::parse("\u{1b}[35m", 0).unwrap();
    assert_eq!(fg, Some(ColorMode::Base16(5)));
    assert_eq!(bg, None);
    assert_eq!(sp, None);

    let (_, (fg, bg, _)) = ColorParser::parse("\u{1b}[45m", 0).unwrap();
    assert_eq!(fg, None);
    assert_eq!(bg, Some(ColorMode::Base16(5)));
}

#[test]
fn parse_bright_16_colors() {
    let (_, (fg, _, _)) = ColorParser::parse("\u{1b}[91m", 0).unwrap();
    assert_eq!(fg, Some(ColorMode::Base16(9)));

    let (_, (fg, bg, _)) = ColorParser::parse("\u{1b}[104m", 0).unwrap();
    assert_eq!(fg, None);
    assert_eq!(bg, Some(ColorMode::Base16(12)));
}

#[test]
fn parse_priority_prefers_palette_over_short_form() {
    // `38;5;66` must be read as a palette index, never as `3` + `8`.
    let (_, (fg, _, _)) = ColorParser::parse("\u{1b}[38;5;66m", 0).unwrap();
    assert_eq!(fg, Some(ColorMode::Base256(Color::Base(66))));
}

#[test]
fn parse_oversized_values_do_not_match() {
    assert_eq!(ColorParser::parse("\u{1b}[38;5;300m", 0), None);
    assert_eq!(ColorParser::parse("\u{1b}[999m", 0), None);
    assert_eq!(ColorParser::parse("\u{1b}[38;2;10;20;999m", 0), None);
}

#[test]
fn parse_missing_trailing_m_fails() {
    assert_eq!(ColorParser::parse("\u{1b}[38;2;10", 0), None);
    assert_eq!(ColorParser::parse("\u{1b}[", 0), None);
    assert_eq!(ColorParser::parse("\u{1b}", 0), None);
}

#[test]
fn parse_plain_text_fails() {
    assert_eq!(ColorParser::parse("hello", 0), None);
    assert_eq!(ColorParser::parse("[1m", 0), None);
}

#[test]
fn parse_mid_string_position() {
    let s = "ab\u{1b}[1mc";
    assert_eq!(ColorParser::parse(s, 0), None);
    let (end, (_, _, sp)) = ColorParser::parse(s, 2).unwrap();
    assert_eq!(end, 6);
    assert_eq!(sp, Some(1));
}

fn texts(c: &ColoredString) -> Vec<String> {
    c.spans.iter().map(|sp| sp.text.clone()).collect()
}

fn visible(c: &ColoredString) -> String {
    c.spans.iter().map(|sp| sp.text.as_str()).collect()
}

#[test]
fn plain_strips_markup() {
    let c = ColoredString::plain("a\u{1b}[31mred\u{1b}[mplain");
    assert_eq!(texts(&c), vec!["a", "red", "plain"]);
    assert!(c.spans.iter().all(|sp| sp.style.is_none()));
}

#[test]
fn plain_keeps_malformed_escape_as_text() {
    let c = ColoredString::plain("\u{1b}[31");
    assert_eq!(texts(&c), vec!["\u{1b}[31"]);
    assert!(c.spans[0].style.is_none());
}

#[test]
fn unstyled_shows_raw_input() {
    let raw = "\u{1b}[31mred";
    let c = ColoredString::unstyled(raw);
    assert_eq!(texts(&c), vec![raw]);
    assert!(c.spans[0].style.is_none());
}

#[test]
fn styled_applies_forward() {
    let c = ColoredString::styled("a\u{1b}[31mred\u{1b}[mplain");
    assert_eq!(texts(&c), vec!["a", "red", "plain"]);
    assert_eq!(c.spans[0].style, None);
    assert_eq!(
        c.spans[1].style,
        Some(Style { fg: Some(ColorMode::Base16(1)), bg: None, effect: Effect::Normal })
    );
    assert_eq!(
        c.spans[2].style,
        Some(Style { fg: None, bg: None, effect: Effect::Normal })
    );
}

#[test]
fn styled_swap_exchanges_foreground_and_background() {
    let c = ColoredString::styled("\u{1b}[31;42;3mX");
    assert_eq!(texts(&c), vec!["X"]);
    assert_eq!(
        c.spans[0].style,
        Some(Style {
            fg: Some(ColorMode::Base16(2)),
            bg: Some(ColorMode::Base16(1)),
            effect: Effect::Normal,
        })
    );
}

#[test]
fn styled_effects() {
    let bold = ColoredString::styled("\u{1b}[1mX");
    assert_eq!(bold.spans[0].style.unwrap().effect, Effect::Bold);
    let underline = ColoredString::styled("\u{1b}[4mX");
    assert_eq!(underline.spans[0].style.unwrap().effect, Effect::Underline);
    let strike = ColoredString::styled("\u{1b}[9mX");
    assert_eq!(strike.spans[0].style.unwrap().effect, Effect::Strikethrough);
    // a syntactically accepted code with no defined effect
    let other = ColoredString::styled("\u{1b}[8mX");
    assert_eq!(other.spans[0].style.unwrap().effect, Effect::Normal);
}

#[test]
fn styled_and_plain_agree_on_visible_text() {
    let inputs = [
        "no markup at all",
        "a\u{1b}[31mred\u{1b}[mplain",
        "\u{1b}[38;2;1;2;3mrgb\u{1b}[48;5;7mtail",
        "broken \u{1b}[31 escape",
        "\u{1b}[m",
        "",
    ];
    for s in inputs {
        let styled = ColoredString::styled(s);
        let plain = ColoredString::plain(s);
        assert_eq!(visible(&styled), visible(&plain));
        assert_eq!(visible(&ColoredString::unstyled(s)), s);
    }
}
