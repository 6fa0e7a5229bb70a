use fontgen::metadata::{get_face, get_weight, ParseError};

const HEADER: &str = "STARTFONT 2.1\nFONT -xos4-Terminus-Medium-R-Normal--32-320-72-72-C-160-ISO10646-1\nSIZE 32 72 72\nFONTBOUNDINGBOX 16 32 0 -6\n";

#[test]
fn weight_is_the_fourth_field_of_the_font_line() {
    assert_eq!(get_weight(HEADER), Ok("Medium".to_string()));
}

#[test]
fn weight_of_a_bold_font() {
    let text = "FONT -xos4-Terminus-Bold-R-Normal--16-160-72-72-C-80-ISO10646-1\n";
    assert_eq!(get_weight(text), Ok("Bold".to_string()));
}

#[test]
fn weight_comes_from_the_first_line_that_starts_with_the_keyword() {
    let text = "COMMENT x\nFONT -a-b-First-d\nFONT -a-b-Second-d\n";
    assert_eq!(get_weight(text), Ok("First".to_string()));
}

#[test]
fn weight_without_a_font_line_fails() {
    assert_eq!(get_weight(""), Err(ParseError::NoFontLine));
    assert_eq!(get_weight("STARTFONT 2.1\nSIZE 32 72 72\n"), Err(ParseError::NoFontLine));
    assert_eq!(get_weight(" FONT -a-b-c-d\n"), Err(ParseError::NoFontLine));
    assert_eq!(get_weight("FON\nT -a-b-c-d\n"), Err(ParseError::NoFontLine));
    assert_eq!(get_weight("font -a-b-c-d\n"), Err(ParseError::NoFontLine));
}

#[test]
fn weight_with_too_few_fields_fails() {
    assert_eq!(get_weight("FONT -xos4-Terminus\n"), Err(ParseError::TooFewFields));
    assert_eq!(get_weight("FONT\n"), Err(ParseError::TooFewFields));
    assert_eq!(get_weight("FONT a-b-c"), Err(ParseError::TooFewFields));
}

#[test]
fn weight_is_not_sought_past_a_short_font_line() {
    let text = "FONTBOUNDINGBOX 16 32 0 -6\nFONT -a-b-Medium-d\n";
    assert_eq!(get_weight(text), Err(ParseError::TooFewFields));
}

#[test]
fn weight_may_be_the_last_field() {
    assert_eq!(get_weight("FONT -a-b-Medium"), Ok("Medium".to_string()));
    assert_eq!(get_weight("FONT -a-b-Medium\n"), Ok("Medium".to_string()));
    assert_eq!(get_weight("FONT a-b-c-d-e"), Ok("d".to_string()));
}

#[test]
fn weight_may_be_empty() {
    assert_eq!(get_weight("FONT -a-b--d"), Ok("".to_string()));
    assert_eq!(get_weight("FONT---"), Ok("".to_string()));
}

#[test]
fn weight_does_not_take_the_line_ending() {
    assert_eq!(get_weight("FONT -a-b-Medium\r\nSIZE 1\r\n"), Ok("Medium".to_string()));
    assert_eq!(get_weight("X\r\nFONT -a-b-Light\r\n"), Ok("Light".to_string()));
}

#[test]
fn weight_keeps_a_carriage_return_that_no_line_feed_follows() {
    assert_eq!(get_weight("FONT -a-b-Medium\r"), Ok("Medium\r".to_string()));
    assert_eq!(get_weight("FONT -a-b-Me\rdium\n"), Ok("Me\rdium".to_string()));
}

#[test]
fn weight_may_hold_any_characters() {
    assert_eq!(get_weight("FONT -ä-ö-Halbfett €-x\n"), Ok("Halbfett €".to_string()));
    assert_eq!(get_weight("ÿ\nFONT -a-b-\u{fffd}\u{1f600}-x\n"), Ok("\u{fffd}\u{1f600}".to_string()));
}

#[test]
fn weight_agrees_with_lines_and_split() {
    let texts = [
        HEADER,
        "FONT -a-b-c-d\n",
        "a\n\nFONT x-y-z-w-v\n",
        "FONT ----\r\n",
        "\nFONTS-1-2-3-4",
        "a\r\nFONT-\r-\r-\r\r\n",
    ];
    for text in texts {
        let line = text.lines().find(|l| l.starts_with("FONT")).unwrap();
        let expected = line.split('-').nth(3).unwrap().to_string();
        assert_eq!(get_weight(text), Ok(expected));
    }
}

#[test]
fn face_is_the_third_field_of_the_name() {
    let name = "-xos4-Terminus-Medium-R-Normal--32-320-72-72-C-160-ISO10646-1";
    assert_eq!(get_face(name), Ok("Terminus".to_string()));
    assert_eq!(get_face("-foundry-Example-Medium"), Ok("Example".to_string()));
}

#[test]
fn face_may_be_the_last_field_or_empty() {
    assert_eq!(get_face("a-b-c"), Ok("c".to_string()));
    assert_eq!(get_face("a-b-"), Ok("".to_string()));
    assert_eq!(get_face("--"), Ok("".to_string()));
    assert_eq!(get_face("---x"), Ok("".to_string()));
}

#[test]
fn face_with_too_few_fields_fails() {
    assert_eq!(get_face(""), Err(ParseError::TooFewFields));
    assert_eq!(get_face("Terminus"), Err(ParseError::TooFewFields));
    assert_eq!(get_face("-Terminus"), Err(ParseError::TooFewFields));
}

#[test]
fn face_is_compared_by_its_exact_text() {
    assert_ne!(get_face("-x-Example-y"), get_face("-x-example-y"));
    assert_eq!(get_face("-x-Beispiel ß-y"), Ok("Beispiel ß".to_string()));
}
