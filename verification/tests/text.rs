use mux::spawn::{cwd_wanted_from, resolve_cwd};
use mux::tab::Pane;
use mux::text::{add_name, is_before, is_listed, path_of_uri, same_text, strip_drive_slash};

#[test]
fn percent_signs_are_decoded() {
    assert_eq!(path_of_uri("/home/a%20b"), Some("/home/a b".to_string()));
    assert_eq!(path_of_uri("/h%C3%A9"), Some("/h\u{e9}".to_string()));
    assert_eq!(path_of_uri("/plain"), Some("/plain".to_string()));
    assert_eq!(path_of_uri("/100%"), Some("/100%".to_string()));
    assert_eq!(path_of_uri("/%zz%2"), Some("/%zz%2".to_string()));
    assert_eq!(path_of_uri("/%41%61%2F"), Some("/Aa/".to_string()));
}

#[test]
fn what_is_not_text_is_no_path() {
    assert_eq!(path_of_uri("/%ff"), None);
    assert_eq!(path_of_uri("%C3"), None);
}

#[test]
fn the_slash_before_a_drive_goes() {
    assert_eq!(path_of_uri("/C:/Users"), Some("C:/Users".to_string()));
    assert_eq!(path_of_uri("/C%3A%5CUsers"), Some("C:\\Users".to_string()));
    assert_eq!(strip_drive_slash("/C:".to_string()), "C:");
    assert_eq!(strip_drive_slash("/C".to_string()), "/C");
    assert_eq!(strip_drive_slash("C:/x".to_string()), "C:/x");
    assert_eq!(strip_drive_slash("/ab:".to_string()), "/ab:");
    assert_eq!(strip_drive_slash("".to_string()), "");
}

#[test]
fn names_are_ordered_and_unique() {
    let mut names: Vec<String> = Vec::new();
    for n in ["b", "a", "b", "", "ab", "B", "\u{e9}", "a"] {
        add_name(&mut names, n);
    }
    let mut sorted: Vec<String> =
        ["b", "a", "", "ab", "B", "\u{e9}"].iter().map(|s| s.to_string()).collect();
    sorted.sort();
    assert_eq!(names, sorted);
    assert!(is_listed(&names, "ab"));
    assert!(!is_listed(&names, "abc"));
    assert!(is_before("a", "ab"));
    assert!(!is_before("ab", "a"));
    assert!(!is_before("a", "a"));
    assert!(same_text("x", "x"));
    assert!(!same_text("x", "xy"));
}

#[test]
fn the_working_directory_is_looked_up_only_where_it_counts() {
    let pane = Pane { pane_id: 3, domain_id: 1 };
    let given = Some("/given".to_string());
    assert_eq!(cwd_wanted_from(&None, Some(pane), 1), Some(3));
    assert_eq!(cwd_wanted_from(&None, Some(pane), 2), None);
    assert_eq!(cwd_wanted_from(&None, None, 1), None);
    assert_eq!(cwd_wanted_from(&given, Some(pane), 1), None);

    let uri = Some("/C:/a%20b".to_string());
    assert_eq!(resolve_cwd(given.clone(), Some(pane), 1, uri.clone()), given);
    assert_eq!(resolve_cwd(None, Some(pane), 1, uri.clone()), Some("C:/a b".to_string()));
    assert_eq!(resolve_cwd(None, Some(pane), 2, uri.clone()), None);
    assert_eq!(resolve_cwd(None, None, 1, uri), None);
    assert_eq!(resolve_cwd(None, Some(pane), 1, None), None);
    assert_eq!(resolve_cwd(None, Some(pane), 1, Some("%ff".to_string())), None);
}
