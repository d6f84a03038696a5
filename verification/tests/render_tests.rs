use rfetch::render::{display_list_of_data, logo_row, Renderer};

const HEADER: &str = "\x1b[33m";
const TEXT: &str = "\x1b[97m";

fn styled(label: &str, value: &str) -> String {
    format!("{HEADER}{label}{TEXT}{value}\n")
}

#[test]
fn logo_rows_in_order_then_blank_padding() {
    let mut r = Renderer::new();
    for _ in 0..13 {
        r.display_logo_line();
    }
    let mut expected = String::new();
    for i in 0..10 {
        expected.push_str(logo_row(i));
        expected.push(' ');
    }
    for _ in 10..13 {
        expected.push_str("              ");
    }
    assert_eq!(r.out, expected);
    assert_eq!(r.cursor, 10);
}

#[test]
fn blank_field_matches_logo_row_width() {
    assert_eq!("              ".len(), logo_row(0).len() + 1);
}

#[test]
fn cursor_never_exceeds_logo_length() {
    let mut r = Renderer::new();
    for _ in 0..25 {
        r.display_logo_line();
    }
    assert_eq!(r.cursor, 10);
}

#[test]
fn display_writes_styled_line() {
    let mut r = Renderer::new();
    r.display("Label: ", "value");
    assert_eq!(r.out, styled("Label: ", "value"));
    assert_eq!(r.cursor, 0);
}

#[test]
fn display_permits_empty_label_and_value() {
    let mut r = Renderer::new();
    r.display("", "");
    assert_eq!(r.out, styled("", ""));
}

#[test]
fn list_of_data_renders_title_then_indented_entries() {
    let mut r = Renderer::new();
    let data = vec![String::from("first"), String::from("second")];
    display_list_of_data(&mut r, "Things:", &data);
    let mut expected = String::new();
    expected.push_str(logo_row(0));
    expected.push(' ');
    expected.push_str(&styled("Things:", ""));
    expected.push_str(logo_row(1));
    expected.push(' ');
    expected.push_str(&styled("   ", "first"));
    expected.push_str(logo_row(2));
    expected.push(' ');
    expected.push_str(&styled("   ", "second"));
    assert_eq!(r.out, expected);
    assert_eq!(r.cursor, 3);
}

#[test]
fn list_of_data_renders_nothing_when_empty() {
    let mut r = Renderer::new();
    let data: Vec<String> = Vec::new();
    display_list_of_data(&mut r, "Things:", &data);
    assert_eq!(r.out, "");
    assert_eq!(r.cursor, 0);
}
