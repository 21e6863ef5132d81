use tui_game::color::{parse_color_str, Color};
use tui_game::markup::{styled_runs, StyledRun};

fn runs(text: &str) -> Vec<(String, Option<Color>, Option<Color>)> {
    styled_runs(text, Some(Color::White), None)
        .into_iter()
        .map(|r: StyledRun| (r.text, r.fg, r.bg))
        .collect()
}

#[test]
fn counted_color_reverts_to_base() {
    let r = runs("f%{tc:red>3}abcde{tc:clear}");
    assert_eq!(
        r,
        vec![
            ("abc".to_string(), Some(Color::Red), None),
            ("de".to_string(), Some(Color::White), None),
        ]
    );
}

#[test]
fn uncleared_color_is_an_error() {
    let r = runs("f%{tc:red}ab");
    assert_eq!(
        r,
        vec![
            ("{unterminated}".to_string(), Some(Color::Red), None),
            ("ab".to_string(), Some(Color::White), None),
        ]
    );
}

#[test]
fn unknown_command_is_one_error_token() {
    let r = runs("f%{bogus:1}");
    assert_eq!(r, vec![("{invalid}".to_string(), Some(Color::Red), None)]);
}

#[test]
fn color_until_clear_with_lookahead() {
    let r = runs("f%{bg:blue}x{bg:clear}y");
    assert_eq!(
        r,
        vec![
            ("x".to_string(), Some(Color::White), Some(Color::Blue)),
            ("y".to_string(), Some(Color::White), None),
        ]
    );
}

#[test]
fn malformed_blocks_never_abort() {
    assert_eq!(
        runs("f%a{}b"),
        vec![
            ("a".to_string(), Some(Color::White), None),
            ("{empty}".to_string(), Some(Color::Red), None),
            ("b".to_string(), Some(Color::White), None),
        ]
    );
    assert_eq!(
        runs("f%a}b"),
        vec![
            ("a".to_string(), Some(Color::White), None),
            ("{unclosed}".to_string(), Some(Color::Red), None),
            ("b".to_string(), Some(Color::White), None),
        ]
    );
    assert_eq!(
        runs("f%{tc:red"),
        vec![("{unclosed}".to_string(), Some(Color::Red), None), ("tc:red".to_string(), Some(Color::White), None)]
    );
    assert_eq!(runs("f%{tc:red>0}x")[0].0, "{invalid}");
    assert_eq!(runs("f%{tc:red>1>2}x")[0].0, "{invalid}");
}

#[test]
fn escapes_and_line_breaks() {
    assert_eq!(
        runs("f%a\\{b\\nc\\"),
        vec![
            ("a{b".to_string(), Some(Color::White), None),
            ("\n".to_string(), Some(Color::White), None),
            ("c\\".to_string(), Some(Color::White), None),
        ]
    );
}

#[test]
fn plain_text_is_one_run() {
    assert_eq!(runs("{tc:red}x"), vec![("{tc:red}x".to_string(), Some(Color::White), None)]);
}

#[test]
fn color_specs() {
    assert_eq!(parse_color_str("#f80"), Some(Color::Rgb { r: 255, g: 136, b: 0 }));
    assert_eq!(parse_color_str(" #0A0b0C "), Some(Color::Rgb { r: 10, g: 11, b: 12 }));
    assert_eq!(parse_color_str("RGB( 1, 2 ,3)"), Some(Color::Rgb { r: 1, g: 2, b: 3 }));
    assert_eq!(parse_color_str("rgb(1,2,256)"), None);
    assert_eq!(parse_color_str("rgb(1,2)"), None);
    assert_eq!(parse_color_str("Dark_Grey"), Some(Color::DarkGrey));
    assert_eq!(parse_color_str("orange"), Some(Color::DarkYellow));
    assert_eq!(parse_color_str("#12345"), None);
    assert_eq!(parse_color_str("mauve"), None);
}
