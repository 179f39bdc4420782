use crabipie::request::{
    build_query_string, join_query, rebuild_url, AuthType, ContentType, FormField,
    FormFieldType, HttpMethod, QueryParam,
};

fn param(key: &str, value: &str, enabled: bool) -> QueryParam {
    let mut p = QueryParam::new();
    p.key = key.to_string();
    p.value = value.to_string();
    p.enabled = enabled;
    p
}

#[test]
fn new_query_param_is_empty_and_enabled() {
    let p = QueryParam::new();
    assert!(p.enabled);
    assert!(p.key.is_empty());
    assert!(p.value.is_empty());
}

#[test]
fn new_form_field_is_empty_text() {
    let f = FormField::new();
    assert!(f.enabled);
    assert!(f.key.is_empty() && f.value.is_empty() && f.files.is_empty());
    assert_eq!(f.field_type, FormFieldType::Text);
}

#[test]
fn query_string_encodes_active_params() {
    let ps = vec![
        param("a b", "c&d", true),
        param("", "skipped", true),
        param("off", "v", false),
        param("x", "y", true),
    ];
    assert_eq!(build_query_string(&ps), "?a%20b=c%26d&x=y");
}

#[test]
fn query_string_empty_without_active_params() {
    assert_eq!(build_query_string(&vec![]), "");
    assert_eq!(build_query_string(&vec![param("k", "v", false)]), "");
}

#[test]
fn join_query_items() {
    assert_eq!(join_query(&vec![]), "");
    assert_eq!(join_query(&vec!["a=1".to_string()]), "?a=1");
    assert_eq!(join_query(&vec!["a=1".to_string(), "b=2".to_string()]), "?a=1&b=2");
}

#[test]
fn url_is_rebuilt_from_base_and_params() {
    let ps = vec![param("a b", "c", true), param("x", "", true)];
    assert_eq!(rebuild_url("http://h/p??", &ps), "http://h/p?a b=c&x=");
    assert_eq!(rebuild_url("http://h/p?", &vec![]), "http://h/p");
    assert_eq!(rebuild_url("http://h/p", &vec![param("k", "v", false)]), "http://h/p");
}

#[test]
fn labels() {
    let m: Vec<String> = HttpMethod::all().iter().map(|m| m.name()).collect();
    assert_eq!(m, vec!["GET", "POST", "PUT", "DELETE", "PATCH"]);
    let c: Vec<String> = ContentType::all().iter().map(|c| c.name()).collect();
    assert_eq!(c, vec!["JSON", "Form Data", "x-www-form"]);
    let f: Vec<String> = FormFieldType::all().iter().map(|f| f.name()).collect();
    assert_eq!(f, vec!["Text", "File"]);
    let a: Vec<String> = AuthType::all().iter().map(|a| a.name()).collect();
    assert_eq!(a, vec!["No Auth", "Bearer Token"]);
}
