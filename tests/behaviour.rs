use universal_mask::{
    LengthWarning, apply_format, count_placeholders, mask, mask_report, select_format,
};

#[test]
fn empty_text_with_several_formats() {
    assert_eq!(mask("", "XX | XXX-X | (X)"), "");
    assert_eq!(mask("", ""), "");
    assert_eq!(mask_report("", "X").warning, None);
}

#[test]
fn literal_format_is_returned_whole() {
    assert_eq!(mask("12", "(--)"), "(--)");
    assert_eq!(mask("abc", "  hello world  "), "hello world");
    let r = mask_report("12", "(--)");
    assert_eq!(r.output, "(--)");
    assert_eq!(r.warning, Some(LengthWarning { text_len: 2, placeholder_count: 0 }));
}

#[test]
fn same_arguments_same_result() {
    let a = mask_report("123456789012", "XXX-XX-XXXX | XX-XXXXXXX");
    let b = mask_report("123456789012", "XXX-XX-XXXX | XX-XXXXXXX");
    assert_eq!(a.output, b.output);
    assert_eq!(a.warning, b.warning);
}

#[test]
fn warning_when_text_is_longer() {
    let r = mask_report("123456789012", "XXX-XX-XXXX");
    assert_eq!(r.output, "123-45-6789");
    assert_eq!(r.warning, Some(LengthWarning { text_len: 12, placeholder_count: 9 }));
    let r = mask_report("123456789012", "XXX-XX-XXXX | XX-XXXXXXX");
    assert_eq!(r.warning, Some(LengthWarning { text_len: 12, placeholder_count: 9 }));
}

#[test]
fn no_warning_on_exact_or_short_fit() {
    assert_eq!(mask_report("123456789", "XXX-XX-XXXX").warning, None);
    assert_eq!(mask_report("123", "XXX-XX-XXXX").warning, None);
}

#[test]
fn first_format_wins_when_it_fits() {
    assert_eq!(mask("12", "XXX-X | X"), "12");
    assert_eq!(select_format(2, "XXX-X | X"), "XXX-X");
}

#[test]
fn selection_never_goes_back() {
    assert_eq!(select_format(5, "XX | XXXXXX | XXX"), "XXXXXX");
    assert_eq!(select_format(3, "XX | X | XXXX"), "XXXX");
    assert_eq!(select_format(12, "XXX-XX-XXXX | XX-XXXXXXX"), "XX-XXXXXXX");
    assert_eq!(select_format(9, "XXX-XX-XXXX | XX-XXXXXXX"), "XXX-XX-XXXX");
}

#[test]
fn formats_are_trimmed() {
    assert_eq!(mask("12", "   X-X \t"), "1-2");
    assert_eq!(mask("1", "\u{3000}X\u{3000}"), "1");
    assert_eq!(select_format(1, "  X.X  |  XX  "), "X.X");
}

#[test]
fn empty_format_lists() {
    assert_eq!(mask("12", ""), "");
    assert_eq!(mask("1", "|"), "");
    assert_eq!(mask_report("12", "").warning, Some(LengthWarning { text_len: 2, placeholder_count: 0 }));
}

#[test]
fn characters_not_bytes() {
    assert_eq!(mask("é1", "X-X"), "é-1");
    assert_eq!(mask("12", "«X»X"), "«1»2");
    assert_eq!(mask_report("éé", "X").warning, Some(LengthWarning { text_len: 2, placeholder_count: 1 }));
}

#[test]
fn apply_stops_where_the_text_runs_out() {
    assert_eq!(apply_format("1", "X-X"), "1");
    assert_eq!(apply_format("123", "XXX-XX-XXXX"), "123");
    assert_eq!(apply_format("12345", "(XXX) XXX-XXXX"), "(123) 45");
    assert_eq!(apply_format("", "XY"), "");
}

#[test]
fn apply_keeps_literals_with_no_placeholder_ahead() {
    assert_eq!(apply_format("12", "X-X-"), "1-2-");
    assert_eq!(apply_format("123", "(XXX)"), "(123)");
    assert_eq!(apply_format("", "ab"), "ab");
    assert_eq!(apply_format("9", "ab"), "ab");
}

#[test]
fn placeholder_counts() {
    assert_eq!(count_placeholders("(XXX) XXX-XXXX"), 10);
    assert_eq!(count_placeholders(""), 0);
    assert_eq!(count_placeholders("x-x"), 0);
}
