use paris::formatter::{colorize_string, Formatter};
use paris::parser::Parser;

fn code(n: u8) -> String {
    format!("\x1B[{}m", n)
}

fn check_replacement(name: &str, value: u8) {
    let k = format!("<{}>", name);
    let c = code(value);
    let s = format!("has: {:<20} -> {}Test string", name, k);
    let parsed = colorize_string(&s);
    assert!(!parsed.contains(&k));
    assert!(parsed.contains(&c));
}

#[test]
fn parse() {
    let s = "<cyan>This <bright-green>is <yellow>a <magenta>string<red> yooo</> with <blue>icons</>";

    let parsed = Parser::parse_color_string(s);

    assert!(!parsed.contains("<cyan>"));
    assert!(!parsed.contains("<yellow>"));
    assert!(!parsed.contains("<red>"));
    assert!(!parsed.contains("<blue>"));
    assert!(!parsed.contains("<bright-green>"));
    assert!(!parsed.contains("</>"));
}

#[test]
fn parse_exact_output() {
    let s = "<cyan>This <bright-green>is <yellow>a <magenta>string<red> yooo</> with <blue>icons</>";
    let expected = format!(
        "{}This {}is {}a {}string{} yooo{} with {}icons{}",
        code(36),
        code(92),
        code(33),
        code(35),
        code(31),
        code(0),
        code(34),
        code(0)
    );
    assert_eq!(Parser::parse_color_string(s), expected);
}

#[test]
fn reset() {
    let k = "</>";
    let c = format!("\x1B[{}m", 0);

    let s = format!("{}Test string", k);
    let parsed = colorize_string(&s);

    assert!(!parsed.contains(&k));
    assert!(parsed.contains(&c));
}

#[test]
fn normal_tags() {
    let s = String::from("<html> This is normal stuff </html>");
    let parsed = colorize_string(&s);

    assert!(parsed.contains("<html>"));
}

#[test]
fn passthrough_keeps_unknown_tags() {
    let parsed = colorize_string("<html>text</html>");
    assert!(parsed.contains("<html>"));
    assert!(parsed.contains("</html>"));
    assert_eq!(parsed, "<html>text</html>");
}

#[test]
fn custom_style() {
    let s = String::from("<custom> This has custom styles <lol> Here's some blue shit yoooo </>");

    let mut fmt = Formatter::new();
    fmt.new_style("custom", vec!["red", "on-green"])
        .new_style("lol", vec!["cyan", "on-blue"]);

    let parsed = fmt.colorize(&s);

    assert!(!parsed.contains("<custom>"));
    assert!(!parsed.contains("<lol>"));
}

#[test]
fn custom_style_expands_in_order() {
    let mut fmt = Formatter::new();
    fmt.new_style("lol", vec!["green", "bold", "on_blue"]);
    let parsed = fmt.colorize("<lol>x</>");
    assert_eq!(parsed, format!("{}{}{}x{}", code(32), code(1), code(44), code(0)));
}

#[test]
fn custom_style_with_unknown_key_keeps_its_text() {
    let mut fmt = Formatter::new();
    fmt.new_style("odd", vec!["red", "nothing"]);
    assert_eq!(fmt.colorize("<odd>"), format!("{}nothing", code(31)));
}

#[test]
fn builtin_keys_come_before_custom_styles() {
    let mut fmt = Formatter::new();
    fmt.new_style("red", vec!["blue"]);
    assert_eq!(fmt.colorize("<red>"), code(31));
}

#[test]
fn first_custom_style_of_a_name_wins() {
    let mut fmt = Formatter::new();
    fmt.new_style("x", vec!["blue"]).new_style("x", vec!["red"]);
    assert_eq!(fmt.colorize("<x>"), code(34));
}

#[test]
fn custom_style_name_is_matched_as_written() {
    let mut fmt = Formatter::new();
    fmt.new_style("lol", vec!["blue"]);
    assert_eq!(fmt.colorize("<LOL>"), "<LOL>");
}

#[test]
fn formatter_without_styles_matches_colorize_string() {
    let s = "<b>bold</b> <on_red>bg</> <tick> <what>";
    assert_eq!(Formatter::new().colorize(s), colorize_string(s));
}

#[test]
fn mixed_case_resolves_like_lowercase() {
    let upper = colorize_string("<CYAN>Test</>");
    let lower = colorize_string("<cyan>Test</>");
    assert_eq!(upper, lower);
    assert_eq!(upper, format!("{}Test{}", code(36), code(0)));
}

#[test]
fn style_reset_differs_from_global_reset() {
    let one = colorize_string("<bold>x</bold>");
    let all = colorize_string("<bold>x</>");
    assert!(one.contains(&code(22)));
    assert!(all.contains(&code(0)));
    assert_ne!(one, all);
    assert_eq!(one, format!("{}x{}", code(1), code(22)));
    assert_eq!(all, format!("{}x{}", code(1), code(0)));
}

#[test]
fn same_tag_twice_gets_the_same_text() {
    assert_eq!(colorize_string("<red><red>"), format!("{}{}", code(31), code(31)));
    assert_eq!(colorize_string("a<red>b<red>c"), format!("a{}b{}c", code(31), code(31)));
}

#[test]
fn separators_are_spaces() {
    let a = colorize_string("<on_bright-green>");
    let b = colorize_string("<on bright green>");
    let c = colorize_string("<on-bright_green>");
    assert_eq!(a, code(102));
    assert_eq!(a, b);
    assert_eq!(a, c);
}

#[test]
fn false_openings_stay_text() {
    let s = "<black><-------------------- some text <some random opening here, <and another here </>";
    let expected = format!(
        "{}<-------------------- some text <some random opening here, <and another here {}",
        code(30),
        code(0)
    );
    assert_eq!(colorize_string(s), expected);
}

#[test]
fn unterminated_tag_is_text() {
    assert_eq!(colorize_string("text <red"), "text <red");
    assert_eq!(colorize_string("<red> and <blue"), format!("{} and <blue", code(31)));
}

#[test]
fn empty_input() {
    assert_eq!(colorize_string(""), "");
    assert_eq!(Formatter::new().colorize(""), "");
}

#[test]
fn text_without_tags_is_unchanged() {
    let s = "plain > text, with > signs";
    assert_eq!(colorize_string(s), s);
}

#[test]
fn multibyte_text_is_kept() {
    let s = "héllo <green>wörld</> ✔";
    assert_eq!(colorize_string(s), format!("héllo {}wörld{} ✔", code(32), code(0)));
}

#[test]
fn icons_in_text() {
    assert_eq!(colorize_string("<tick> done"), "✔ done");
    assert_eq!(colorize_string("<WARN>"), "⚠");
    assert_eq!(colorize_string("<cross><info><heart>"), "✖ℹ♥");
}

#[test]
fn background_needs_the_space_form() {
    assert_eq!(colorize_string("<onred>"), "<onred>");
    assert_eq!(colorize_string("<on on red>"), "<on on red>");
    assert_eq!(colorize_string("<on red>"), code(41));
}

#[test]
fn reset_has_no_background_form() {
    assert_eq!(colorize_string("<on />"), "<on />");
    assert_eq!(colorize_string("<on_/>"), "<on_/>");
    assert_eq!(colorize_string("<ON-/>"), "<ON-/>");
    assert_eq!(colorize_string("</>"), code(0));
}

#[test]
fn macros() {
    let messages = vec![
        format!("This <cyan>is <bright green>a log<//>!"),
        format!(
            "<cyan><info></> {}",
            format!("<red>HAHAHAHAHA<///> <black><on green>{}</>", "the crate supports macros with colors!")
        ),
        format!("<red><cross></> {}", format!("This is going to <bright red>stderr</> {}", "WOOOO")),
        format!("<yellow><warn></> {}", format!("This is a {} <yellow>BEWARE</>!", "warning")),
        format!("<green><tick></> {}", format!("{} went well, congrats!", "<bright green>Everything</>")),
        format!("It works inside a match as well!!! {}", "<bright blue>finally</>"),
    ];
    for m in messages.iter() {
        let out = colorize_string(m);
        assert!(!out.contains("</>"));
        assert!(!out.contains("<cyan>"));
        assert!(!out.contains("<bright green>"));
    }
    assert!(colorize_string(&messages[1]).contains("ℹ"));
    assert!(colorize_string(&messages[1]).contains("<///>"));
}

#[test]
fn black() { check_replacement("black", 30); }
#[test]
fn red() { check_replacement("red", 31); }
#[test]
fn green() { check_replacement("green", 32); }
#[test]
fn yellow() { check_replacement("yellow", 33); }
#[test]
fn blue() { check_replacement("blue", 34); }
#[test]
fn magenta() { check_replacement("magenta", 35); }
#[test]
fn cyan() { check_replacement("cyan", 36); }
#[test]
fn white() { check_replacement("white", 37); }
#[test]
fn bright_black() { check_replacement("bright_black", 90); }
#[test]
fn bright_red() { check_replacement("bright_red", 91); }
#[test]
fn bright_green() { check_replacement("bright_green", 92); }
#[test]
fn bright_yellow() { check_replacement("bright_yellow", 93); }
#[test]
fn bright_blue() { check_replacement("bright_blue", 94); }
#[test]
fn bright_magenta() { check_replacement("bright_magenta", 95); }
#[test]
fn bright_cyan() { check_replacement("bright_cyan", 96); }
#[test]
fn bright_white() { check_replacement("bright_white", 97); }
#[test]
fn on_black() { check_replacement("on_black", 40); }
#[test]
fn on_red() { check_replacement("on_red", 41); }
#[test]
fn on_green() { check_replacement("on_green", 42); }
#[test]
fn on_yellow() { check_replacement("on_yellow", 43); }
#[test]
fn on_bright_black() { check_replacement("on_bright_black", 100); }
#[test]
fn on_bright_red() { check_replacement("on_bright_red", 101); }
#[test]
fn on_bright_green() { check_replacement("on_bright_green", 102); }
#[test]
fn on_bright_yellow() { check_replacement("on_bright_yellow", 103); }
#[test]
fn bold() { check_replacement("bold", 1); }
#[test]
fn dimmed() { check_replacement("dimmed", 2); }
#[test]
fn italic() { check_replacement("italic", 3); }
#[test]
fn underline() { check_replacement("underline", 4); }
#[test]
fn blink() { check_replacement("blink", 5); }
#[test]
fn reverse() { check_replacement("reverse", 7); }
#[test]
fn hidden() { check_replacement("hidden", 8); }
#[test]
fn strikethrough() { check_replacement("strikethrough", 9); }

#[test]
fn every_color_in_both_places() {
    let names = [
        ("black", 30), ("red", 31), ("green", 32), ("yellow", 33), ("blue", 34),
        ("magenta", 35), ("cyan", 36), ("white", 37), ("bright black", 90),
        ("bright red", 91), ("bright green", 92), ("bright yellow", 93),
        ("bright blue", 94), ("bright magenta", 95), ("bright cyan", 96),
        ("bright white", 97),
    ];
    for (name, fg) in names.iter() {
        assert_eq!(colorize_string(&format!("<{}>", name)), code(*fg));
        assert_eq!(colorize_string(&format!("<on {}>", name)), code(*fg + 10));
    }
}

#[test]
fn default_formatter_has_no_styles() {
    let f: Formatter = Default::default();
    assert_eq!(f.colorize("<red>x<lol>"), format!("{}x<lol>", code(31)));
}
