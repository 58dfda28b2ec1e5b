use cirula::config::{
    color_text_cuts_char, namespace, parse_hex_color, Config, CustomPalette, Field, HexColor, ThemeName, APP_NAME,
};
use cirula::text::{
    after_first_of, contains, ends_with, first_segment_of, first_word_of, from_chars, join,
    last_segment_of, push_decimal, remove_suffix, replace, starts_with, str_eq, to_chars,
    trim_str,
};

fn rgb(r: u8, g: u8, b: u8) -> HexColor {
    HexColor { r, g, b, a: None }
}

#[test]
fn trims_unicode_white_space() {
    assert_eq!(trim_str("  \t hello world \n"), "hello world");
    assert_eq!(trim_str("\u{3000}x\u{a0}"), "x");
    assert_eq!(trim_str("   "), "");
}

#[test]
fn first_word_like_split_whitespace() {
    assert_eq!(first_word_of("  /usr/bin/firefox %u"), Some("/usr/bin/firefox".to_string()));
    assert_eq!(first_word_of("   "), None);
}

#[test]
fn replaces_from_the_left_without_overlap() {
    assert_eq!(replace("aaa", "aa", "b"), "ba");
    assert_eq!(replace("env %U --new %f", "%U", ""), "env  --new %f");
    assert_eq!(replace("x{}y{}", "{}", "cmd"), "xcmdycmd");
}

#[test]
fn prefixes_suffixes_segments() {
    assert!(starts_with(":ls", ":"));
    assert!(!starts_with("ls", ":"));
    assert!(ends_with("a.desktop", ".desktop"));
    assert_eq!(remove_suffix("firefox.desktop", ".desktop"), "firefox");
    assert_eq!(remove_suffix("firefox", ".desktop"), "firefox");
    assert_eq!(first_segment_of("en_US.UTF-8", '.'), "en_US");
    assert_eq!(last_segment_of("org.gnome.Nautilus", '.'), "Nautilus");
    assert_eq!(last_segment_of("plain", '.'), "plain");
    assert_eq!(after_first_of("Name\rExtra\rMore", '\r'), Some("Extra\rMore".to_string()));
    assert_eq!(after_first_of("Name", '\r'), None);
    assert!(contains("firefox web browser", "web"));
    assert!(contains("abc", ""));
    assert!(!contains("abc", "abcd"));
    assert!(str_eq("a", "a") && !str_eq("a", "b"));
}

#[test]
fn joins_and_numbers() {
    let words = vec!["a".to_string(), "b".to_string(), "c".to_string()];
    assert_eq!(join(&words, " "), "a b c");
    assert_eq!(join(&Vec::new(), " "), "");
    let mut s = String::from("pid-");
    push_decimal(&mut s, 4096);
    assert_eq!(s, "pid-4096");
    let mut z = String::new();
    push_decimal(&mut z, 0);
    assert_eq!(z, "0");
    assert_eq!(from_chars(&to_chars("héllo")), "héllo");
}

#[test]
fn hex_colors_of_every_form() {
    assert_eq!(parse_hex_color("#14141f"), Some(rgb(0x14, 0x14, 0x1f)));
    assert_eq!(parse_hex_color("#fff"), Some(rgb(255, 255, 255)));
    assert_eq!(parse_hex_color("#a1b"), Some(rgb(0xaa, 0x11, 0xbb)));
    assert_eq!(parse_hex_color("#ABC8"), Some(HexColor { r: 0xaa, g: 0xbb, b: 0xcc, a: Some(0x88) }));
    assert_eq!(
        parse_hex_color("#8066e6cc"),
        Some(HexColor { r: 0x80, g: 0x66, b: 0xe6, a: Some(0xcc) })
    );
    // Every leading '#' goes, and none is needed.
    assert_eq!(parse_hex_color("##f2f2fa"), Some(rgb(0xf2, 0xf2, 0xfa)));
    assert_eq!(parse_hex_color("e64d66"), Some(rgb(0xe6, 0x4d, 0x66)));
    // A '+' sign is read like `u8::from_str_radix` reads it.
    assert_eq!(parse_hex_color("#+f+f+f"), Some(rgb(15, 15, 15)));
    assert_eq!(parse_hex_color("#+ff"), None);
}

#[test]
fn text_that_is_no_color() {
    assert_eq!(parse_hex_color("#12345"), None);
    assert_eq!(parse_hex_color("#ggg"), None);
    assert_eq!(parse_hex_color(""), None);
    assert_eq!(parse_hex_color("#éé12"), None);
    assert_eq!(parse_hex_color("#-1-1-1"), None);
}

#[test]
fn short_color_is_long_color_with_doubled_digits() {
    assert_eq!(parse_hex_color("#4dc"), parse_hex_color("#44ddcc"));
    assert_eq!(parse_hex_color("#4dc9"), parse_hex_color("#44ddcc99"));
}

fn palette(colors: [Option<&str>; 6]) -> CustomPalette {
    let s = |c: Option<&str>| c.map(|x| x.to_string());
    CustomPalette {
        background: s(colors[0]),
        text: s(colors[1]),
        primary: s(colors[2]),
        success: s(colors[3]),
        danger: s(colors[4]),
        warning: s(colors[5]),
    }
}

#[test]
fn custom_palette_needs_all_six_colors() {
    let full = palette([
        Some("#14141f"),
        Some("#f2f2fa"),
        Some("#8066e6"),
        Some("#4dcc99"),
        Some("#e64d66"),
        Some("#e6b34d"),
    ]);
    let colors = full.palette_colors().unwrap();
    assert_eq!(colors.background, rgb(0x14, 0x14, 0x1f));
    assert_eq!(colors.warning, rgb(0xe6, 0xb3, 0x4d));
    let missing = palette([Some("#14141f"), None, Some("#8066e6"), None, None, None]);
    assert_eq!(missing.palette_colors(), None);
    let broken = palette([
        Some("#14141f"),
        Some("#f2f2fa"),
        Some("nope"),
        Some("#4dcc99"),
        Some("#e64d66"),
        Some("#e6b34d"),
    ]);
    assert_eq!(broken.palette_colors(), None);
    assert_eq!(CustomPalette::default().palette_colors(), None);
}

#[test]
fn default_configuration() {
    let c = Config::default();
    assert_eq!(c.app_theme, ThemeName::CatppuccinFrappe);
    assert!(c.exclusive && c.recent_first && !c.frequent_first);
    assert_eq!(c.prune_history, 0);
    assert_eq!(c.icon_size, 64);
    assert_eq!((c.width, c.height), (-1, -1));
    assert!(!c.anchor_left && c.anchor_right && c.anchor_top && c.anchor_bottom);
    assert_eq!(c.extra_field, vec![Field::IdSuffix]);
    assert!(c.hidden_fields.is_empty() && c.name_overrides.is_empty() && c.exclude.is_empty());
    assert!(c.hide_extra_if_contained && c.cgroups && !c.extra_field_newline);
    assert_eq!(c.command_prefix, ":");
    assert!(c.term_command.is_none() && c.locale.is_none());
    assert_eq!(ThemeName::default(), ThemeName::CatppuccinFrappe);
}

#[test]
fn layer_namespace_is_the_app_name() {
    assert_eq!(namespace(), APP_NAME);
    assert_eq!(APP_NAME, "sirula");
}

#[test]
fn color_texts_that_would_be_cut_inside_a_character() {
    // Three bytes, the first character two of them: "é" then "a".
    assert!(color_text_cuts_char("#éa"));
    assert!(color_text_cuts_char("\u{20ac}\u{20ac}"));
    assert!(!color_text_cuts_char("#fff"));
    assert!(color_text_cuts_char("#\u{20ac}"));
    assert!(!color_text_cuts_char("#\u{e9}"));
    assert!(!color_text_cuts_char("zz"));
    let cut = palette([Some("#000"), Some("#éa"), None, None, None, None]);
    assert!(cut.cuts_char());
    // Reading stops at the first text that is no colour, before the cut one.
    let stopped = palette([Some("#000"), Some("nope"), Some("#éa"), None, None, None]);
    assert!(!stopped.cuts_char());
    assert_eq!(stopped.palette_colors(), None);
}
