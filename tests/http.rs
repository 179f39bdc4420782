use crabipie::http::{
    bearer_header, download_filename, is_binary_content_type, parse_header_lines, parse_headers,
    urlencoded_pairs,
};
use crabipie::request::{AuthType, FormField, FormFieldType};

fn s(a: &str, b: &str) -> (String, String) {
    (a.to_string(), b.to_string())
}

#[test]
fn binary_content_types() {
    assert!(is_binary_content_type("image/png"));
    assert!(is_binary_content_type("application/pdf"));
    assert!(is_binary_content_type("application/octet-stream; charset=x"));
    assert!(is_binary_content_type("video/mp4"));
    assert!(is_binary_content_type("audio/ogg"));
    assert!(!is_binary_content_type("application/json"));
    assert!(!is_binary_content_type("text/html"));
    assert!(!is_binary_content_type(""));
    assert!(!is_binary_content_type("x-image/png"));
}

#[test]
fn bearer_header_only_with_token() {
    assert_eq!(bearer_header(AuthType::Bearer, "abc"), Some("Bearer abc".to_string()));
    assert_eq!(bearer_header(AuthType::Bearer, ""), None);
    assert_eq!(bearer_header(AuthType::NoAuth, "abc"), None);
}

#[test]
fn urlencoded_pairs_of_active_text_fields() {
    let mut a = FormField::new();
    a.key = "a".to_string();
    a.value = "1".to_string();
    let mut off = FormField::new();
    off.key = "off".to_string();
    off.enabled = false;
    let blank = FormField::new();
    let mut file = FormField::new();
    file.key = "f".to_string();
    file.field_type = FormFieldType::File;
    let mut b = FormField::new();
    b.key = "b".to_string();
    b.value = "two words".to_string();
    assert!(a.is_active() && !off.is_active() && !blank.is_active());
    let fields = vec![a, off, blank, file, b];
    assert_eq!(urlencoded_pairs(&fields), vec![s("a", "1"), s("b", "two words")]);
}

#[test]
fn filename_from_content_disposition() {
    assert_eq!(
        download_filename(Some("attachment; filename=\"report.pdf\""), "http://h/x"),
        "report.pdf"
    );
    assert_eq!(download_filename(Some("attachment; filename='a.txt'"), "http://h/x"), "a.txt");
    assert_eq!(download_filename(Some("inline; filename=b.bin"), "http://h/x"), "b.bin");
    assert_eq!(
        download_filename(Some("filename=\"one\"; filename=two"), "http://h/x"),
        "one\"; "
    );
}

#[test]
fn filename_from_url_when_disposition_has_none() {
    assert_eq!(download_filename(Some("inline"), "http://h/dir/file.zip"), "file.zip");
    assert_eq!(download_filename(None, "http://h/dir/"), "");
    assert_eq!(download_filename(None, "plain"), "plain");
}

#[test]
fn headers_are_parsed_line_by_line() {
    let text = "Content-Type: application/json\r\n  # comment: no\n\nX-Empty:\nbad line\n Accept :  */* \nA: b: c";
    assert_eq!(
        parse_headers(text),
        vec![
            s("Content-Type", "application/json"),
            s("X-Empty", ""),
            s("Accept", "*/*"),
            s("A", "b: c"),
        ]
    );
}

#[test]
fn no_headers_in_blank_text() {
    assert!(parse_headers("").is_empty());
    assert!(parse_headers("\n \n\t\n").is_empty());
}

#[test]
fn header_lines_with_given_white_space() {
    let text = "k:_v_";
    let ws: Vec<bool> = text.chars().map(|c| c == '_').collect();
    assert_eq!(parse_header_lines(text, &ws), vec![s("k", "v")]);
}
