use paris::ansi::Ansi;
use paris::color::Color;
use paris::custom::CustomStyle;
use paris::icons::LogIcon;
use paris::key::{FromKey, Key};
use paris::key_list::KeyList;
use paris::style::Style;
use paris::timestamp::format_timestamp;

#[test]
fn cleanup() {
    let color = "<on_bright-green>";

    let clean = Key::clean(color);

    assert_eq!("on bright green", clean);
}

#[test]
fn clean_keeps_spaced_keys() {
    assert_eq!(Key::clean("<on bright_green>"), "on bright_green");
    assert_eq!(Key::clean("</bold>"), "/bold");
    assert_eq!(Key::clean("</>"), "/");
    assert_eq!(Key::clean("<<a>>"), "<a>");
    assert_eq!(Key::clean("plain"), "plain");
    assert_eq!(Key::clean(""), "");
}

#[test]
fn key_list_find_keys() {
    let input = "<black> <red> one two <three>";
    let key_count = KeyList::new(input).keys().len();

    assert_eq!(key_count, 3);
}

#[test]
fn ignore_fake_keys() {
    let input = "<black><-------------------- some text <some random opening here, <and another here </>";
    let key_count = KeyList::new(input).keys().len();

    assert_eq!(key_count, 2);
}

#[test]
fn fake_keys_are_the_right_ones() {
    let input = "<black><-------------------- some text <some random opening here, <and another here </>";
    let keys = KeyList::new(input).keys();
    assert_eq!(keys[0].contents(), "<black>");
    assert_eq!(keys[1].contents(), "</>");
}

#[test]
fn mess_around() {
    let input = "<< powering on 'TV' (0)";
    let _keys = KeyList::new(input).keys().len();

    let input = "<< something that doesn't end after weird patterns < alksdfa < ngi2oueng <<ikdoqlksmads <black></>";
    let keys = KeyList::new(input).keys().len();

    assert_eq!(keys, 2);
}

#[test]
fn scan_one_at_a_time() {
    let mut scan = KeyList::new("a<b>c<<d>");
    assert_eq!(scan.next_span(), Some((1, 4)));
    assert_eq!(scan.next_span(), Some((6, 9)));
    assert_eq!(scan.next_span(), None);
    assert_eq!(scan.next_span(), None);

    let mut scan = KeyList::new("x <red> y");
    let k = scan.next_key().unwrap();
    assert_eq!(k.contents(), "<red>");
    assert!(scan.next_key().is_none());
}

#[test]
fn scan_counts_characters_not_bytes() {
    let mut scan = KeyList::new("é<b>");
    assert_eq!(scan.next_span(), Some((1, 4)));
}

#[test]
fn scan_restarts_the_same() {
    let s = "<a> <b <c> d>";
    let first: Vec<String> = KeyList::new(s).keys().iter().map(|k| k.contents().to_string()).collect();
    let second: Vec<String> = KeyList::new(s).keys().iter().map(|k| k.contents().to_string()).collect();
    assert_eq!(first, vec!["<a>".to_string(), "<c>".to_string()]);
    assert_eq!(first, second);
}

#[test]
fn ansi_expansion() {
    let style = CustomStyle::new("lol", vec!["blue"]);
    let color = Key::new("blue");

    assert_eq!(style.expand(), color.to_ansi());
}

#[test]
fn custom_style_parts() {
    let style = CustomStyle::new("lol", vec!["green", "b"]);
    assert_eq!(style.key(), "<lol>");
    assert_eq!(style.expand(), "\x1B[32m\x1B[1m");
}

#[test]
fn key_resolution() {
    let k = Key::new("<bright-red>");
    assert_eq!(k.contents(), "<bright-red>");
    assert_eq!(k.as_color(), Some("\x1B[91m".to_string()));
    assert_eq!(k.as_style(), None);
    assert_eq!(k.as_icon(), None);
    assert_eq!(k.to_ansi(), "\x1B[91m");

    let s = Key::new("<U>");
    assert_eq!(s.as_style(), Some("\x1B[4m".to_string()));
    assert_eq!(s.as_color(), None);

    let i = Key::new("<Heart>");
    assert_eq!(i.as_icon(), Some("♥".to_string()));

    let r = Key::new("</>");
    assert_eq!(r.resolve(), Some("\x1B[0m".to_string()));
    assert_eq!(r.as_color(), Some("\x1B[0m".to_string()));

    let u = Key::new("<html>");
    assert_eq!(u.resolve(), None);
    assert_eq!(u.to_ansi(), "<html>");
}

#[test]
fn resolving_twice_gives_the_same_text() {
    let k = Key::new("<on_cyan>");
    let a = k.to_ansi();
    let b = k.to_ansi();
    assert_eq!(a, b);
    assert_eq!(a, "\x1B[46m");
    assert_eq!(Key::new("<on_cyan>").to_ansi(), a);
}

#[test]
fn color_reset() {
    assert_eq!(Color::from_key("/"), Some(String::from(format!("\x1B[{}m", 0))));
    assert_eq!(Color::from_name("/"), Some(Color::Reset));
    assert_eq!(Color::Reset.get_fg_value(), 0);
    assert_eq!(Color::Reset.get_bg_value(), 0);
    assert_eq!(Key::new("</>").as_color(), Some("\x1B[0m".to_string()));
    assert_eq!(Color::from_key("on /"), None);
}

#[test]
fn color_background() {
    assert_eq!(Color::from_key("on red"), Some("\x1B[41m".to_string()));
}

#[test]
fn color_foreground() {
    assert_eq!(Color::from_key("red"), Some("\x1B[31m".to_string()));
}

#[test]
fn color_lookup_ignores_case() {
    assert_eq!(Color::from_key("On Bright Blue"), Some("\x1B[104m".to_string()));
    assert_eq!(Color::from_key("/"), Some("\x1B[0m".to_string()));
    assert_eq!(Color::from_key("purple"), None);
}

#[test]
fn color_values() {
    assert_eq!(Color::BrightWhite.get_fg_value(), 97);
    assert_eq!(Color::BrightWhite.get_bg_value(), 107);
    assert_eq!(Color::Magenta.get_bg_value(), 45);
    assert_eq!(Color::from_name("bright cyan"), Some(Color::BrightCyan));
    assert_eq!(Color::from_name("Cyan"), None);
}

#[test]
fn style_values() {
    assert_eq!(Style::from_name("/s"), Some(Style::StrikethroughReset));
    assert_eq!(Style::StrikethroughReset.get_value(), 29);
    assert_eq!(Style::DimmedReset.get_value(), 22);
    assert_eq!(Style::from_key("/Italic"), Some("\x1B[23m".to_string()));
    assert_eq!(Style::from_key("l"), Some("\x1B[5m".to_string()));
    assert_eq!(Style::from_key("x"), None);
}

#[test]
fn icon_tick() {
    assert_eq!(LogIcon::from_key("tick").unwrap(), "✔");
}

#[test]
fn icon_cross() {
    assert_eq!(LogIcon::from_key("cross").unwrap(), "✖");
}

#[test]
fn icon_info() {
    assert_eq!(LogIcon::from_key("info").unwrap(), "ℹ");
}

#[test]
fn icon_warn() {
    assert_eq!(LogIcon::from_key("warn").unwrap(), "⚠");
}

#[test]
fn icon_heart() {
    assert_eq!(LogIcon::from_key("heart").unwrap(), "♥");
}

#[test]
fn icon_names() {
    assert_eq!(LogIcon::Warning.to_str(), "⚠");
    assert_eq!(LogIcon::from_name("warning"), None);
    assert_eq!(LogIcon::from_key("TICK"), Some("✔".to_string()));
}

#[test]
fn escape_codes() {
    assert_eq!(Ansi::escape(0), "\x1B[0m");
    assert_eq!(Ansi::escape(7), "\x1B[7m");
    assert_eq!(Ansi::escape(42), "\x1B[42m");
    assert_eq!(Ansi::escape(107), "\x1B[107m");
    assert_eq!(Ansi::escape(255), "\x1B[255m");
}

#[test]
fn timestamp_text() {
    assert_eq!(format_timestamp(0), "\x1B[2m00:00:00 AM: \x1B[0m");
    let t = 13 * 3600 + 5 * 60 + 9;
    assert_eq!(format_timestamp(t), "\x1B[2m13:05:09 PM: \x1B[0m");
    assert_eq!(format_timestamp(86400 + 12 * 3600), "\x1B[2m12:00:00 AM: \x1B[0m");
}
