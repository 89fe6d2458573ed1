use wp_user_enum::probe::{
    build_target, follow_up_url, has_http_prefix, is_redirect_status, normalize_base,
    range_is_valid, resolve_redirect,
};
use wp_user_enum::scan::{find_link_names, location_name};
use wp_user_enum::classes::class_name;

#[test]
fn inverted_range_is_rejected() {
    // start=5, end=3 is a configuration error: the caller must stop with
    // exit code 2 before any request is issued.
    assert!(!range_is_valid(5, 3));
    assert!(range_is_valid(3, 5));
    assert!(range_is_valid(4, 4));
}

#[test]
fn redirect_statuses_are_the_three_hundreds() {
    assert!(!is_redirect_status(299));
    assert!(is_redirect_status(300));
    assert!(is_redirect_status(301));
    assert!(is_redirect_status(399));
    assert!(!is_redirect_status(400));
    assert!(!is_redirect_status(200));
}

#[test]
fn base_url_loses_trailing_slashes() {
    assert_eq!(normalize_base("http://example.com/"), "http://example.com");
    assert_eq!(normalize_base("http://example.com///"), "http://example.com");
    assert_eq!(normalize_base("http://example.com/wp"), "http://example.com/wp");
    assert_eq!(normalize_base(""), "");
}

#[test]
fn target_url_carries_the_author_query() {
    assert_eq!(build_target("http://example.com", 1), "http://example.com/?author=1");
    assert_eq!(build_target("http://example.com", 105), "http://example.com/?author=105");
    assert_eq!(build_target("http://example.com/wp", 4294967295), "http://example.com/wp/?author=4294967295");
}

#[test]
fn redirect_resolution_keeps_absolute_locations() {
    assert!(has_http_prefix("https://example.com/x"));
    assert!(!has_http_prefix("/author/erin/"));
    assert_eq!(
        resolve_redirect("http://example.com", "http://other.example/a"),
        "http://other.example/a"
    );
    assert_eq!(
        resolve_redirect("http://example.com", "/author/erin/"),
        "http://example.com/author/erin/"
    );
}

#[test]
fn second_fetch_follows_only_redirects_with_location() {
    let loc = "/author/erin/".to_string();
    assert_eq!(
        follow_up_url("http://example.com", 301, Some(&loc)),
        Some("http://example.com/author/erin/".to_string())
    );
    let absolute = "https://other.example/a".to_string();
    assert_eq!(
        follow_up_url("http://example.com", 302, Some(&absolute)),
        Some("https://other.example/a".to_string())
    );
    assert_eq!(follow_up_url("http://example.com", 301, None), None);
    assert_eq!(follow_up_url("http://example.com", 200, Some(&loc)), None);
}

#[test]
fn location_header_yields_first_segment() {
    assert_eq!(location_name("/author/erin/"), Some("erin".to_string()));
    assert_eq!(location_name("/author/erin"), Some("erin".to_string()));
    assert_eq!(location_name("https://example.com/author/frank/feed/"), Some("frank".to_string()));
    assert_eq!(location_name("/?p=42"), None);
    assert_eq!(location_name("/author//"), None);
}

#[test]
fn link_scan_is_empty_on_short_bodies() {
    assert!(find_link_names("").is_empty());
    assert!(find_link_names("/author/").is_empty());
    assert!(find_link_names("author/x").is_empty());
}

#[test]
fn class_rule_reads_only_the_first_class_attribute() {
    let body = "<body class=\"author author-42 author-carol\"><div class=\"author-dave author-7\">";
    assert_eq!(class_name(body), Some("carol".to_string()));
}
