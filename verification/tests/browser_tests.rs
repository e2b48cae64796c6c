use textfiles_browser::browser::{Browser, Content};

const HOME: &str = "http://textfiles.com/directory.html";

#[test]
fn new_browser_is_at_home_with_empty_history() {
    let b = Browser::new();
    assert_eq!(b.current_url, HOME);
    assert!(b.history.is_empty());
    assert!(!b.can_go_back());
}

#[test]
fn classification_markup_variants_select_directory_parsing() {
    let b = Browser::new();
    let markup = [
        "<!DOCTYPE html><html><body></body></html>",
        "  \n\t <!doctype html>",
        "<HTML><body>x</body>",
        "   <html><td>x</td>",
    ];
    for body in markup {
        let page = b.load("http://textfiles.com/sci/", body);
        assert!(matches!(page.content, Content::Directory(_)));
    }
}

#[test]
fn classification_other_bodies_select_plain_text() {
    let b = Browser::new();
    let plain = [
        "just some text",
        "",
        "  <body><html>",
        "<xml>",
        "doctype <!doctype",
    ];
    for body in plain {
        let page = b.load("http://textfiles.com/sci/file.txt", body);
        match &page.content {
            Content::TextFile(t) => assert_eq!(t, body),
            Content::Directory(_) => panic!("classified as markup"),
        }
    }
}

#[test]
fn home_scenario_yields_index_page_with_science_entry() {
    let b = Browser::new();
    let body = r#"<!DOCTYPE html><html><head><title>Index</title></head><body><table><tr><td><b><a href="sci">Science</a></b><br><i>Science texts</i></td></tr></table></body></html>"#;
    let page = b.load(HOME, body);
    assert_eq!(page.title, "Index");
    match &page.content {
        Content::Directory(entries) => {
            assert_eq!(entries.len(), 1);
            assert_eq!(entries[0].name, "Science");
            assert_eq!(entries[0].url, "http://textfiles.com/sci/");
            assert_eq!(entries[0].description, "Science texts");
            assert!(entries[0].is_dir);
        },
        Content::TextFile(_) => panic!("classified as text"),
    }
}

#[test]
fn markup_title_falls_back_to_url_segment_uppercased() {
    let b = Browser::new();
    let page = b.load("http://textfiles.com/sci/", "<html><td>x</td>");
    assert_eq!(page.title, "SCI");
    let empty_title = b.load("http://textfiles.com/sci/", "<html><title> </title>");
    assert_eq!(empty_title.title, "SCI");
}

#[test]
fn markup_title_falls_back_to_site_name_without_segment() {
    let b = Browser::new();
    let page = b.load("///", "<html><td>x</td>");
    assert_eq!(page.title, "TEXTFILES.COM");
}

#[test]
fn text_title_is_last_segment_or_fallback() {
    let b = Browser::new();
    let page = b.load("http://textfiles.com/sci/space.txt", "plain");
    assert_eq!(page.title, "space.txt");
    let no_segment = b.load("///", "plain");
    assert_eq!(no_segment.title, "file");
}

#[test]
fn go_back_on_empty_history_changes_nothing() {
    let mut b = Browser::new();
    assert_eq!(b.go_back(), None);
    assert_eq!(b.current_url, HOME);
    assert!(b.history.is_empty());
}

#[test]
fn navigate_twice_then_back_restores_first_target() {
    let mut b = Browser::new();
    b.navigate("http://textfiles.com/sci/");
    b.navigate("http://textfiles.com/sci/space.txt");
    assert!(b.can_go_back());
    let popped = b.go_back();
    assert_eq!(popped.as_deref(), Some("http://textfiles.com/sci/"));
    assert_eq!(b.current_url, "http://textfiles.com/sci/");
    assert_eq!(b.history.len(), 1);
    assert_eq!(b.history[0], HOME);
}

#[test]
fn navigate_records_previous_location_even_before_any_load() {
    let mut b = Browser::new();
    b.navigate("http://textfiles.com/100/");
    assert_eq!(b.current_url, "http://textfiles.com/100/");
    assert_eq!(b.history, vec![HOME.to_string()]);
}

#[test]
fn refresh_returns_current_location_and_leaves_state_alone() {
    let mut b = Browser::new();
    b.navigate("http://textfiles.com/sci/");
    let before_len = b.history.len();
    let u = b.refresh();
    assert_eq!(u, b.current_url);
    assert_eq!(b.history.len(), before_len);
    assert_eq!(b.current_url, "http://textfiles.com/sci/");
}

#[test]
fn extracted_location_navigates_without_transformation() {
    let b = Browser::new();
    let body = r#"<html><td><a href="sci">Science</a></td>"#;
    let page = b.load(HOME, body);
    let url = match &page.content {
        Content::Directory(entries) => entries[0].url.clone(),
        Content::TextFile(_) => panic!("classified as text"),
    };
    assert!(url.starts_with("http"));
    let mut b2 = Browser::new();
    b2.navigate(&url);
    assert_eq!(b2.current_url, url);
}
