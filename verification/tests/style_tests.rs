use tuinix::{TerminalColor, TerminalError, TerminalStyle};

#[test]
fn parse_style() {
    let style: TerminalStyle = "\x1b[0;1;38;2;0;255;0m".parse().expect("invalid");
    assert!(style.bold);
    assert_eq!(style.fg_color, Some(TerminalColor::green()));

    let style: TerminalStyle = "\x1b[0;38;2;0;0;0;48;2;255;255;0m"
        .parse()
        .expect("invalid");
    assert_eq!(style.fg_color, Some(TerminalColor::black()));
    assert_eq!(style.bg_color, Some(TerminalColor::yellow()));
}

#[test]
fn styles_serialize_in_the_canonical_order() {
    assert_eq!(TerminalStyle::new().to_string(), "\x1b[0m");
    assert_eq!(TerminalStyle::reset().to_string(), "\x1b[0m");
    let all = TerminalStyle::new()
        .strikethrough()
        .reverse()
        .blink()
        .underline()
        .italic()
        .dim()
        .bold()
        .bg_color(TerminalColor::new(1, 20, 255))
        .fg_color(TerminalColor::new(0, 9, 100));
    assert_eq!(
        all.to_string(),
        "\x1b[0;1;2;3;4;5;7;9;38;2;0;9;100;48;2;1;20;255m"
    );
    assert_eq!(TerminalStyle::new().dim().to_string(), "\x1b[0;2m");
    assert_eq!(TerminalStyle::new().italic().to_string(), "\x1b[0;3m");
    assert_eq!(
        TerminalStyle::new().bg_color(TerminalColor::bright_red()).to_string(),
        "\x1b[0;48;2;255;100;100m"
    );
}

#[test]
fn every_style_parses_back_from_its_escape_sequence() {
    let colors = [
        None,
        Some(TerminalColor::black()),
        Some(TerminalColor::white()),
        Some(TerminalColor::new(7, 42, 199)),
    ];
    for bits in 0u32..128 {
        for fg in colors {
            for bg in colors {
                let style = TerminalStyle {
                    bold: bits & 1 != 0,
                    italic: bits & 2 != 0,
                    underline: bits & 4 != 0,
                    blink: bits & 8 != 0,
                    reverse: bits & 16 != 0,
                    dim: bits & 32 != 0,
                    strikethrough: bits & 64 != 0,
                    fg_color: fg,
                    bg_color: bg,
                };
                assert_eq!(TerminalStyle::parse(&style.to_string()), Ok(style));
            }
        }
    }
}

#[test]
fn text_that_is_no_style_is_an_error() {
    let bad = [
        "",
        "m",
        "\x1b[m",
        "\x1b[1m",
        "\x1b[0",
        "\x1b[0;6m",
        "\x1b[0;8m",
        "\x1b[0;2;1m",
        "\x1b[0;1;1m",
        "\x1b[0;10m",
        "\x1b[0;38;2;0;0m",
        "\x1b[0;38;2;0;0;256m",
        "\x1b[0;38;2;0;0;-1m",
        "\x1b[0;38;2;;0;0m",
        "\x1b[0;38;5;1m",
        "\x1b[0;48;2;1;2;3;38;2;1;2;3m",
        "\x1b[0mm",
        "\x1b[0m ",
        " \x1b[0m",
    ];
    for text in bad {
        assert_eq!(
            TerminalStyle::parse(text),
            Err(TerminalError::InvalidStyleEscape),
            "{:?}",
            text
        );
    }
}

#[test]
fn numbers_may_have_a_plus_and_leading_zeros() {
    let style = TerminalStyle::parse("\x1b[0;38;2;+1;007;0000255m").unwrap();
    assert_eq!(style.fg_color, Some(TerminalColor::new(1, 7, 255)));
}

#[test]
fn the_named_colors() {
    assert_eq!(TerminalColor::red(), TerminalColor::new(255, 0, 0));
    assert_eq!(TerminalColor::blue(), TerminalColor::new(0, 0, 255));
    assert_eq!(TerminalColor::magenta(), TerminalColor::new(255, 0, 255));
    assert_eq!(TerminalColor::cyan(), TerminalColor::new(0, 255, 255));
    assert_eq!(TerminalColor::bright_black(), TerminalColor::new(128, 128, 128));
    assert_eq!(TerminalColor::bright_green(), TerminalColor::new(100, 255, 100));
    assert_eq!(TerminalColor::bright_yellow(), TerminalColor::new(255, 255, 100));
    assert_eq!(TerminalColor::bright_blue(), TerminalColor::new(100, 100, 255));
    assert_eq!(TerminalColor::bright_magenta(), TerminalColor::new(255, 100, 255));
    assert_eq!(TerminalColor::bright_cyan(), TerminalColor::new(100, 255, 255));
    assert_eq!(TerminalColor::bright_white(), TerminalColor::new(255, 255, 255));
}
