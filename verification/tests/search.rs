use fetch_directory::search::{is_default_field, want_field, RESULT_LIMIT};

fn names(list: &[&str]) -> Vec<String> {
    list.iter().map(|name| name.to_string()).collect()
}

#[test]
fn caller_who_lists_no_fields_wants_all() {
    assert!(want_field(None, &"title".to_string()));
    assert!(want_field(None, &String::new()));
}

#[test]
fn caller_who_lists_fields_wants_those() {
    let listed = names(&["title", "authors"]);
    assert!(want_field(Some(&listed), &"title".to_string()));
    assert!(want_field(Some(&listed), &"authors".to_string()));
    assert!(!want_field(Some(&listed), &"filename".to_string()));
    assert!(!want_field(Some(&listed), &"Title".to_string()));
    assert!(!want_field(Some(&listed), &"titl".to_string()));

    let none = names(&[]);
    assert!(!want_field(Some(&none), &"title".to_string()));
}

#[test]
fn only_wanted_indexed_text_fields_are_searched() {
    let listed = names(&["title"]);
    let title = "title".to_string();
    let year = "year".to_string();
    assert!(is_default_field(Some(&listed), &title, true, true));
    assert!(is_default_field(None, &year, true, true));
    assert!(!is_default_field(Some(&listed), &year, true, true));
    assert!(!is_default_field(Some(&listed), &title, false, true));
    assert!(!is_default_field(Some(&listed), &title, true, false));
    assert!(!is_default_field(None, &title, false, false));
}

#[test]
fn search_returns_at_most_ten_documents() {
    assert_eq!(RESULT_LIMIT, 10);
}
