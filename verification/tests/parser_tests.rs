use textfiles_browser::parser::{parse_directory_html, parse_file_listing, parse_page_title};

#[test]
fn directory_layout_basic_entry() {
    let html = r#"<html><body><table><tr><td><b><a href="sci">Science</a></b><br><i>Science texts</i></td></tr></table></body></html>"#;
    let entries = parse_directory_html(html);
    assert_eq!(entries.len(), 1);
    assert_eq!(entries[0].name, "Science");
    assert_eq!(entries[0].url, "http://textfiles.com/sci/");
    assert_eq!(entries[0].description, "Science texts");
    assert!(entries[0].is_dir);
}

#[test]
fn directory_layout_skips_dotted_slashed_colon_targets() {
    let html = r#"<td><a href="file.txt">File</a></td><td><a href="a/b">Nested</a></td><td><a href="http://x.y/">External</a></td><td><a href="mailto:x">Mail</a></td><td><a href="">Empty</a></td><td><a href="good">Good</a></td>"#;
    let entries = parse_directory_html(html);
    assert_eq!(entries.len(), 1);
    assert_eq!(entries[0].name, "Good");
    assert_eq!(entries[0].url, "http://textfiles.com/good/");
    assert_eq!(entries[0].description, "");
}

#[test]
fn directory_layout_skips_empty_and_overlong_names() {
    let long_name = "x".repeat(51);
    let html = format!(
        r#"<td><a href="empty"> </a></td><td><a href="long">{}</a></td><td><a href="ok">Fifty</a></td>"#,
        long_name
    );
    let entries = parse_directory_html(&html);
    assert_eq!(entries.len(), 1);
    assert_eq!(entries[0].name, "Fifty");
}

#[test]
fn directory_layout_accepts_name_of_exactly_fifty_characters() {
    let name = "y".repeat(50);
    let html = format!(r#"<td><a href="edge">{}</a></td>"#, name);
    let entries = parse_directory_html(&html);
    assert_eq!(entries.len(), 1);
    assert_eq!(entries[0].name, name);
}

#[test]
fn directory_layout_cell_without_link_is_skipped() {
    let html = r#"<td>plain cell</td><td><a href="one">One</a></td>"#;
    let entries = parse_directory_html(html);
    assert_eq!(entries.len(), 1);
    assert_eq!(entries[0].name, "One");
}

#[test]
fn directory_layout_keeps_document_order_without_dedup() {
    let html = r#"<td><a href="one">One</a></td><td><a href="two">Two</a></td><td><a href="one">One</a></td>"#;
    let entries = parse_directory_html(html);
    assert_eq!(entries.len(), 3);
    assert_eq!(entries[0].name, "One");
    assert_eq!(entries[1].name, "Two");
    assert_eq!(entries[2].name, "One");
}

#[test]
fn file_listing_extracts_rows_and_skips_non_children() {
    let html = r#"<tr><td><a href="?C=N;O=D">Name</a></td><td>Size</td><td>Description</td></tr><tr><td><a href="../">Parent Directory</a></td></tr><tr><td><a href="100/">100</a></td><td>2024</td><td>  stuff  </td></tr><tr><td><a href="file.txt">file.txt</a></td><td>12K</td><td>a file</td></tr><tr><td><a href="http://example.com/x">ext</a></td></tr><tr><td><a href="/abs">abs</a></td></tr>"#;
    let entries = parse_file_listing(html, "http://textfiles.com/sci/");
    assert_eq!(entries.len(), 2);
    assert_eq!(entries[0].name, "100");
    assert_eq!(entries[0].url, "http://textfiles.com/sci/100/");
    assert_eq!(entries[0].description, "stuff");
    assert!(entries[0].is_dir);
    assert_eq!(entries[1].name, "file.txt");
    assert_eq!(entries[1].url, "http://textfiles.com/sci/file.txt");
    assert_eq!(entries[1].description, "a file");
    assert!(!entries[1].is_dir);
}

#[test]
fn file_listing_skips_any_scheme_but_keeps_http_named_children() {
    let html = r#"<tr><td><a href="ftp://x/y">ftp</a></td></tr><tr><td><a href="mailto:someone">mail</a></td></tr><tr><td><a href="news:comp.misc">news</a></td></tr><tr><td><a href=ftp:e>x</a></td></tr><tr><td><a href="httpd_guide.txt">httpd_guide.txt</a></td></tr>"#;
    let entries = parse_file_listing(html, "http://textfiles.com/sci");
    assert_eq!(entries.len(), 1);
    assert_eq!(entries[0].name, "httpd_guide.txt");
    assert_eq!(entries[0].url, "http://textfiles.com/sci/httpd_guide.txt");
    assert!(!entries[0].is_dir);
}

#[test]
fn file_listing_skips_header_link_texts() {
    let html = r#"<tr><td><a href="n">Name</a></td></tr><tr><td><a href="f">Filename</a></td></tr><tr><td><a href="d">Data</a></td></tr>"#;
    let entries = parse_file_listing(html, "http://textfiles.com/sci");
    assert_eq!(entries.len(), 1);
    assert_eq!(entries[0].name, "Data");
    assert_eq!(entries[0].url, "http://textfiles.com/sci/d");
}

#[test]
fn file_listing_description_needs_three_cells() {
    let html = r#"<tr><td><a href="a">A</a></td><td>only two</td></tr>"#;
    let entries = parse_file_listing(html, "http://textfiles.com/x/");
    assert_eq!(entries.len(), 1);
    assert_eq!(entries[0].description, "");
}

#[test]
fn file_listing_strips_trailing_slash_from_name() {
    let html = r#"<tr><td><a href="dir/">dir/</a></td></tr>"#;
    let entries = parse_file_listing(html, "http://textfiles.com/x");
    assert_eq!(entries.len(), 1);
    assert_eq!(entries[0].name, "dir");
    assert!(entries[0].is_dir);
}

#[test]
fn file_listing_row_without_cells_or_link_is_skipped() {
    let html = r#"<tr>no cells</tr><tr><td>no link</td></tr><tr><td><a href="a">A</a></td></tr>"#;
    let entries = parse_file_listing(html, "http://textfiles.com/x");
    assert_eq!(entries.len(), 1);
    assert_eq!(entries[0].name, "A");
}

#[test]
fn page_title_found_and_trimmed() {
    let html = "<html><head><title>  Jokes  </title></head></html>";
    assert_eq!(parse_page_title(html), Some("Jokes".to_string()));
}

#[test]
fn page_title_absent() {
    let html = "<html><head></head><body>x</body></html>";
    assert_eq!(parse_page_title(html), None);
}

#[test]
fn page_title_present_but_empty() {
    let html = "<html><head><title> </title></head></html>";
    assert_eq!(parse_page_title(html), Some(String::new()));
}

#[test]
fn extracted_locations_are_absolute() {
    let dir = parse_directory_html(r#"<td><a href="sci">Science</a></td>"#);
    assert!(dir[0].url.starts_with("http"));
    let listing = parse_file_listing(
        r#"<tr><td><a href="a.txt">a.txt</a></td></tr>"#,
        "http://textfiles.com/sci/",
    );
    assert!(listing[0].url.starts_with("http"));
}
