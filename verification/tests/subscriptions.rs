use zero2prod::forms::parse_form;
use zero2prod::routes::health_check;
use zero2prod::subscriptions::{
    new_subscriber_record, subscribe_response, SubscriptionTable,
};

fn handle(
    table: &mut SubscriptionTable,
    body: &[u8],
    id: u128,
    at: i64,
    store_ok: bool,
) -> u16 {
    let response = zero2prod::subscriptions::handle_submission(table, body, id, at, store_ok);
    assert_eq!(response.body.len(), 0);
    response.status
}

#[test]
fn health_check_works() {
    let response = health_check();
    assert_eq!(response.status, 200);
    assert_eq!(response.body.len(), 0);
}

#[test]
fn subscribe_returns_a_200_for_valid_form_data() {
    let mut table = SubscriptionTable::new();
    let body = b"name=le%20guin&email=ursula_le_guin%40gmail.com";
    let status = handle(&mut table, body, 7, 1_000, true);
    assert_eq!(200, status);
    assert_eq!(table.len(), 1);
    let saved = table.row(0);
    assert_eq!(saved.email, "ursula_le_guin@gmail.com");
    assert_eq!(saved.name, "le guin");
}

#[test]
fn subscribe_returns_a_400_when_data_is_missing() {
    let test_cases: Vec<(&[u8], &str)> = vec![
        (b"name=le%20guin", "missing the email"),
        (b"email=ursula_le_guin_%40gmail.com", "missing the name"),
        (b"", "missing both name, and email"),
    ];
    for (invalid_body, error_message) in test_cases {
        let mut table = SubscriptionTable::new();
        let status = handle(&mut table, invalid_body, 7, 1_000, true);
        assert_eq!(
            400, status,
            "The API didn't fail with 400 Bad Request when the payload was {}",
            error_message
        );
        assert_eq!(table.len(), 0);
    }
}

#[test]
fn subscribe_missing_email_inserts_nothing() {
    let mut table = SubscriptionTable::new();
    let status = handle(&mut table, b"name=le%20guin", 7, 1_000, true);
    assert_eq!(status, 400);
    assert_eq!(table.len(), 0);
}

#[test]
fn subscribe_empty_body_inserts_nothing() {
    let mut table = SubscriptionTable::new();
    let status = handle(&mut table, b"", 7, 1_000, true);
    assert_eq!(status, 400);
    assert_eq!(table.len(), 0);
}

#[test]
fn subscribe_twice_keeps_two_distinct_rows() {
    let mut table = SubscriptionTable::new();
    let body = b"name=le%20guin&email=ursula_le_guin%40gmail.com";
    assert_eq!(handle(&mut table, body, 1, 10, true), 200);
    assert_eq!(handle(&mut table, body, 2, 20, true), 200);
    assert_eq!(table.len(), 2);
    assert_ne!(table.row(0).id, table.row(1).id);
    assert_eq!(table.row(0).email, table.row(1).email);
    assert_eq!(table.row(0).name, table.row(1).name);
}

#[test]
fn subscribe_store_failure_gives_500_and_no_row() {
    let mut table = SubscriptionTable::new();
    let body = b"name=a&email=b";
    let status = handle(&mut table, body, 7, 1_000, false);
    assert_eq!(status, 500);
    assert_eq!(table.len(), 0);
}

#[test]
fn parse_form_decodes_escapes_and_plus() {
    let form = parse_form(b"name=le+guin%21&email=a%40b.c").unwrap();
    assert_eq!(form.name, "le guin!");
    assert_eq!(form.email, "a@b.c");
}

#[test]
fn parse_form_decodes_multibyte_escapes() {
    let form = parse_form(b"name=%C3%A9&email=x").unwrap();
    assert_eq!(form.name, "\u{e9}");
    assert_eq!(form.email, "x");
}

#[test]
fn parse_form_keeps_stray_percent_literal() {
    let form = parse_form(b"name=100%&email=x").unwrap();
    assert_eq!(form.name, "100%");
}

#[test]
fn parse_form_ignores_unknown_keys() {
    let form = parse_form(b"x=1&name=a&email=b&y=2").unwrap();
    assert_eq!(form.name, "a");
    assert_eq!(form.email, "b");
}

#[test]
fn parse_form_rejects_repeated_field() {
    assert!(parse_form(b"name=a&name=b&email=c").is_none());
    assert!(parse_form(b"name=a&email=b&email=c").is_none());
}

#[test]
fn parse_form_accepts_empty_values() {
    let form = parse_form(b"name=&email=").unwrap();
    assert_eq!(form.name, "");
    assert_eq!(form.email, "");
}

#[test]
fn new_subscriber_record_keeps_the_submitted_fields() {
    let form = parse_form(b"name=le%20guin&email=ursula_le_guin%40gmail.com").unwrap();
    let record = new_subscriber_record(&form);
    assert_eq!(record.email, "ursula_le_guin@gmail.com");
    assert_eq!(record.name, "le guin");
}

#[test]
fn subscribe_response_maps_the_store_verdict() {
    let ok = subscribe_response(true);
    assert_eq!(ok.status, 200);
    assert_eq!(ok.body.len(), 0);
    let failed = subscribe_response(false);
    assert_eq!(failed.status, 500);
    assert_eq!(failed.body.len(), 0);
}
