use wp_user_enum::extract::{extract_from_html, extract_from_payload, run_extraction, Payload};
use wp_user_enum::userset::UserSet;

fn names_of_html(body: &str) -> Vec<String> {
    let mut users = UserSet::new();
    extract_from_html(body, &mut users);
    users.into_names()
}

#[test]
fn html_link_with_trailing_slash_yields_alice() {
    let body = "<html><body><a href=\"/author/alice/\">posts</a></body></html>";
    let names = names_of_html(body);
    assert_eq!(names, vec!["alice".to_string()]);
}

#[test]
fn html_link_without_trailing_slash_yields_bob() {
    let body = "<a href=\"/author/bob\">bob's page</a>";
    let names = names_of_html(body);
    assert_eq!(names, vec!["bob".to_string()]);
}

#[test]
fn html_link_rule_finds_every_occurrence() {
    let body = "see \"/author/a/\" and \"/author/b\" for details";
    let names = names_of_html(body);
    assert_eq!(names, vec!["a".to_string(), "b".to_string()]);
}

#[test]
fn html_link_matches_do_not_overlap() {
    // The first match consumes its trailing slash, so a second marker
    // sharing that slash is not seen.
    let body = "/author/x/author/alice/";
    let names = names_of_html(body);
    assert_eq!(names, vec!["x".to_string()]);
}

#[test]
fn link_name_stops_at_quote_and_angle() {
    let body = "<a href='/author/carol'>x</a> <a href=\"/author/d-e_f\">y</a>";
    let names = names_of_html(body);
    assert_eq!(names, vec!["carol".to_string(), "d-e_f".to_string()]);
}

#[test]
fn body_class_with_name_and_id_yields_carol() {
    let body = "<body class=\"author author-carol author-42\">";
    let names = names_of_html(body);
    assert_eq!(names, vec!["carol".to_string()]);
}

#[test]
fn body_class_with_only_id_yields_nothing() {
    let body = "<body class=\"author author-42\">";
    let names = names_of_html(body);
    assert!(names.is_empty());
}

#[test]
fn body_class_with_only_name_yields_nothing() {
    let body = "<body class=\"author-dave\">";
    let names = names_of_html(body);
    assert!(names.is_empty());
}

#[test]
fn body_class_last_name_token_wins() {
    let body = "<body class=\"author-bob author-7 author-alice\">";
    let names = names_of_html(body);
    assert_eq!(names, vec!["alice".to_string()]);
}

#[test]
fn body_class_without_closing_quote_yields_nothing() {
    let body = "<body class=\"author author-carol author-42";
    let names = names_of_html(body);
    assert!(names.is_empty());
}

#[test]
fn redirect_and_body_dedup_to_one_erin() {
    let first = Payload {
        status: 301,
        location: Some("/author/erin/".to_string()),
        body: None,
    };
    let second = Payload {
        status: 200,
        location: None,
        body: Some("<a href=\"/author/erin/\">erin</a>".to_string()),
    };
    let payloads = vec![first, second];
    let mut users = UserSet::new();
    run_extraction(&payloads, &mut users);
    assert_eq!(users.into_names(), vec!["erin".to_string()]);
}

#[test]
fn payload_without_signals_contributes_nothing() {
    let payload = Payload {
        status: 200,
        location: None,
        body: Some("<p>nothing here</p>".to_string()),
    };
    let mut users = UserSet::new();
    extract_from_payload(&payload, &mut users);
    assert_eq!(users.len(), 0);
}

#[test]
fn skipped_id_leaves_output_empty() {
    // A transport failure produces no payload at all for the ID; the run
    // over whatever remains still completes with an empty set.
    let payloads: Vec<Payload> = Vec::new();
    let mut users = UserSet::new();
    run_extraction(&payloads, &mut users);
    assert_eq!(users.len(), 0);
    assert!(users.into_names().is_empty());
}

#[test]
fn extraction_twice_is_idempotent() {
    let payloads = vec![
        Payload {
            status: 301,
            location: Some("/author/erin/".to_string()),
            body: None,
        },
        Payload {
            status: 200,
            location: None,
            body: Some(
                "<body class=\"author author-carol author-42\"><a href=\"/author/alice/\">a</a>"
                    .to_string(),
            ),
        },
    ];
    let mut users = UserSet::new();
    run_extraction(&payloads, &mut users);
    let once = {
        let mut sorted: Vec<String> = Vec::new();
        for i in 0..users.len() {
            sorted.push(users.get(i).clone());
        }
        sorted.sort();
        sorted
    };
    run_extraction(&payloads, &mut users);
    let twice = {
        let mut sorted: Vec<String> = Vec::new();
        for i in 0..users.len() {
            sorted.push(users.get(i).clone());
        }
        sorted.sort();
        sorted
    };
    assert_eq!(once, twice);
    assert_eq!(
        once,
        vec!["alice".to_string(), "carol".to_string(), "erin".to_string()]
    );
}

#[test]
fn link_names_may_hold_non_ascii_characters() {
    let body = "<a href=\"/author/m\u{fc}ller/\">posts</a>";
    let names = names_of_html(body);
    assert_eq!(names, vec!["m\u{fc}ller".to_string()]);
}

#[test]
fn both_rules_on_one_body_combine() {
    let body = "<body class=\"author author-carol author-42\"><a href=\"/author/alice/\">a</a>";
    let mut names = names_of_html(body);
    names.sort();
    assert_eq!(names, vec!["alice".to_string(), "carol".to_string()]);
}
