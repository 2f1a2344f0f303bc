use pi_coding_agent::ansi::{ansi_to_html, color_256_to_hex, is_ansi_input_ok};

fn assert_contains_styled(html: &str, text: &str, style_fragment: &str) {
    assert!(html.contains(text), "Expected text {:?} in {:?}", text, html);
    assert!(
        html.contains(style_fragment),
        "Expected style fragment {:?} in {:?}",
        style_fragment,
        html
    );
}

#[test]
fn no_ansi_passthrough() {
    let input = "Hello, world!";
    let result = ansi_to_html(input);
    assert_eq!(result, "Hello, world!");
}

#[test]
fn html_escaping_in_plain_text() {
    let input = "<b>bold</b> & \"quotes\"";
    let result = ansi_to_html(input);
    assert_eq!(result, "&lt;b&gt;bold&lt;/b&gt; &amp; &quot;quotes&quot;");
}

#[test]
fn basic_foreground_color_red() {
    let input = "\x1b[31mred text\x1b[0m";
    let result = ansi_to_html(input);
    assert_contains_styled(&result, "red text", "color:#cc0000");
    assert!(result.ends_with("</span>"), "span must be closed: {result}");
}

#[test]
fn bold_and_color_combined() {
    let input = "\x1b[1;32mbold green\x1b[0m";
    let result = ansi_to_html(input);
    assert_contains_styled(&result, "bold green", "color:#4e9a06");
    assert_contains_styled(&result, "bold green", "font-weight:bold");
}

#[test]
fn reset_closes_spans() {
    let input = "\x1b[34mblue\x1b[0m plain";
    let result = ansi_to_html(input);
    let after_close = result.split("</span>").last().unwrap_or("");
    assert!(after_close.contains("plain"), "Text after reset should be outside span: {result}");
    assert_eq!(result.matches("<span").count(), 1);
}

#[test]
fn sequential_styles_each_get_span() {
    let input = "\x1b[31mred\x1b[0m\x1b[34mblue\x1b[0m";
    let result = ansi_to_html(input);
    assert!(result.contains("color:#cc0000"), "red missing: {result}");
    assert!(result.contains("color:#3465a4"), "blue missing: {result}");
    assert_eq!(result.matches("<span").count(), 2);
    assert_eq!(result.matches("</span>").count(), 2);
}

#[test]
fn underline_attribute() {
    let input = "\x1b[4munderlined\x1b[0m";
    let result = ansi_to_html(input);
    assert_contains_styled(&result, "underlined", "text-decoration:underline");
}

#[test]
fn italic_attribute() {
    let input = "\x1b[3mitalic text\x1b[0m";
    let result = ansi_to_html(input);
    assert_contains_styled(&result, "italic text", "font-style:italic");
}

#[test]
fn bright_foreground_colors() {
    let input = "\x1b[91mbright red\x1b[0m";
    let result = ansi_to_html(input);
    assert_contains_styled(&result, "bright red", "color:#ef2929");
}

#[test]
fn standard_background_color() {
    let input = "\x1b[42mgreen bg\x1b[0m";
    let result = ansi_to_html(input);
    assert_contains_styled(&result, "green bg", "background-color:#4e9a06");
}

#[test]
fn bright_background_color() {
    let input = "\x1b[103mbright yellow bg\x1b[0m";
    let result = ansi_to_html(input);
    assert_contains_styled(&result, "bright yellow bg", "background-color:#fce94f");
}

#[test]
fn color_256_foreground() {
    let input = "\x1b[38;5;196mred 256\x1b[0m";
    let result = ansi_to_html(input);
    assert_contains_styled(&result, "red 256", "color:#ff0000");
}

#[test]
fn color_256_background() {
    let input = "\x1b[48;5;21mbg blue 256\x1b[0m";
    let result = ansi_to_html(input);
    assert_contains_styled(&result, "bg blue 256", "background-color:#0000ff");
}

#[test]
fn color_256_grayscale() {
    let result = color_256_to_hex(232);
    assert_eq!(result, "#080808");
    let result = color_256_to_hex(255);
    assert_eq!(result, "#eeeeee");
}

#[test]
fn bare_reset_no_param() {
    let input = "\x1b[31mred\x1b[mplain";
    let result = ansi_to_html(input);
    let after_close = result.split("</span>").last().unwrap_or("");
    assert!(after_close.contains("plain"), "Text after bare reset outside span: {result}");
}

#[test]
fn implicit_close_at_end_of_input() {
    let input = "\x1b[33myellow without reset";
    let result = ansi_to_html(input);
    assert!(result.contains("color:#c4a000"), "color missing: {result}");
    assert!(result.ends_with("</span>"), "Span must be closed at EOF: {result}");
}

#[test]
fn multiple_attributes_in_one_sequence() {
    let input = "\x1b[1;3;4mstyle party\x1b[0m";
    let result = ansi_to_html(input);
    assert_contains_styled(&result, "style party", "font-weight:bold");
    assert_contains_styled(&result, "style party", "font-style:italic");
    assert_contains_styled(&result, "style party", "text-decoration:underline");
}

#[test]
fn non_sgr_sequences_stripped() {
    let input = "before\x1b[2Jafter";
    let result = ansi_to_html(input);
    assert_eq!(result, "beforeafter");
}

#[test]
fn empty_input() {
    assert_eq!(ansi_to_html(""), "");
}

#[test]
fn fg_bg_bold_combined() {
    let input = "\x1b[1;33;41mhighlight\x1b[0m";
    let result = ansi_to_html(input);
    assert_contains_styled(&result, "highlight", "font-weight:bold");
    assert_contains_styled(&result, "highlight", "color:#c4a000");
    assert_contains_styled(&result, "highlight", "background-color:#cc0000");
}

#[test]
fn cube_and_standard_palette_entries() {
    assert_eq!(color_256_to_hex(1), "#cc0000");
    assert_eq!(color_256_to_hex(16), "#000000");
    assert_eq!(color_256_to_hex(17), "#00005f");
    assert_eq!(color_256_to_hex(231), "#ffffff");
}

#[test]
fn exact_span_markup() {
    assert_eq!(
        ansi_to_html("\x1b[1;31mx\x1b[0my"),
        "<span style=\"color:#cc0000;font-weight:bold;\">x</span>y"
    );
}

#[test]
fn ansi_input_check_flags_non_ascii_final_bytes() {
    assert!(is_ansi_input_ok("\x1b[31mred\x1b[0m plain"));
    assert!(is_ansi_input_ok("no escapes at all"));
    assert!(is_ansi_input_ok("\x1b[31"));
    assert!(!is_ansi_input_ok("\x1b[31é rest"));
    assert!(is_ansi_input_ok("\x1b[31m\x1b[0m é"));
}
