use knots::escape_html;
use knots::escape_latex;
use knots::get_alpha_numeral;
use knots::get_roman_numeral;

#[test]
fn roman_first_three() {
    assert_eq!(get_roman_numeral(1), "I");
    assert_eq!(get_roman_numeral(2), "II");
    assert_eq!(get_roman_numeral(3), "III");
}

#[test]
fn roman_units_and_tens() {
    assert_eq!(get_roman_numeral(4), "IV");
    assert_eq!(get_roman_numeral(9), "IX");
    assert_eq!(get_roman_numeral(10), "X");
    assert_eq!(get_roman_numeral(14), "XIV");
    assert_eq!(get_roman_numeral(39), "XXXIX");
}

#[test]
fn roman_degrades_at_forty() {
    // The labelling scheme repeats the ten symbol instead of forming XL.
    assert_eq!(get_roman_numeral(40), "XXXX");
    assert_eq!(get_roman_numeral(41), "XXXXI");
}

#[test]
fn alpha_letters() {
    assert_eq!(get_alpha_numeral(1), "A");
    assert_eq!(get_alpha_numeral(2), "B");
    assert_eq!(get_alpha_numeral(26), "Z");
}

#[test]
fn alpha_clamps_past_the_alphabet() {
    assert_eq!(get_alpha_numeral(27), "Z");
    assert_eq!(get_alpha_numeral(100), "Z");
}

#[test]
fn escape_html_escapes_markup_characters() {
    assert_eq!(escape_html("a<b&c>d"), "a&lt;b&amp;c&gt;d");
    assert_eq!(escape_html("plain"), "plain");
    assert_eq!(escape_html(""), "");
}

#[test]
fn escape_latex_doubles_breaks_and_quotes() {
    assert_eq!(escape_latex("a\nb"), "a\\\\\\\\b");
    assert_eq!(escape_latex("a\r\nb"), "a\\\\\\\\b");
    assert_eq!(escape_latex("it's"), "it\\'s");
    assert_eq!(escape_latex("a\\b"), "a\\\\b");
}
