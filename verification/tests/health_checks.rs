use zero2prod::routes::health_check::health_check;
use zero2prod::routes::subscriptions::{handle_subscription, parse_form_body, FormError};

#[test]
fn health_check_works() {
    let response = health_check();
    assert!(200 <= response.status && response.status < 300);
    assert_eq!(0, response.body.len());
}

#[test]
fn subscribe_return_200_with_valid_data() {
    let body = "name=le%20guin&email=ursula_le_guin%40gmail.com";

    let response = handle_subscription(body);
    assert_eq!(200, response.status);

    let saved = parse_form_body(body).expect("Failed to parse a valid body");
    assert_eq!(saved.email, "ursula_le_guin@gmail.com");
    assert_eq!(saved.name, "le guin");
}

#[test]
fn subscribe_return_400_with_missing_data() {
    let test_cases = vec![
        ("name=le%20guin", "missing the email"),
        ("email=ursula_le_guin%40gmail.com", "missing the name"),
        ("", "missing both the name and email"),
    ];

    for (invalid_body, error_message) in test_cases {
        let response = handle_subscription(invalid_body);
        assert_eq!(
            400, response.status,
            "The API did not return 400 when the payload was {}",
            error_message
        );
        assert_eq!(error_message, response.body);
    }
}

#[test]
fn subscribe_decodes_plus_as_space() {
    let saved = parse_form_body("name=le+guin&email=a%40b.c").expect("Failed to parse");
    assert_eq!(saved.name, "le guin");
    assert_eq!(saved.email, "a@b.c");
}

#[test]
fn subscribe_rejects_truncated_escape() {
    let response = handle_subscription("name=le%2&email=a%40b.c");
    assert_eq!(400, response.status);
    assert_eq!("malformed form body", response.body);
    assert!(matches!(
        parse_form_body("name=le%2&email=a%40b.c"),
        Err(FormError::Malformed)
    ));
}

#[test]
fn subscribe_rejects_non_hex_escape() {
    assert!(matches!(parse_form_body("name=%zz&email=a"), Err(FormError::Malformed)));
}

#[test]
fn subscribe_takes_first_occurrence_of_a_key() {
    let saved = parse_form_body("name=first&email=e&name=second").expect("Failed to parse");
    assert_eq!(saved.name, "first");
    assert_eq!(saved.email, "e");
}

#[test]
fn subscribe_accepts_fields_in_any_order() {
    let saved = parse_form_body("email=a%40b.c&name=x").expect("Failed to parse");
    assert_eq!(saved.name, "x");
    assert_eq!(saved.email, "a@b.c");
}

#[test]
fn subscribe_accepts_empty_values() {
    let saved = parse_form_body("name=&email=").expect("Failed to parse");
    assert_eq!(saved.name, "");
    assert_eq!(saved.email, "");
}

#[test]
fn error_messages_distinguish_the_missing_fields() {
    assert_eq!("missing the name", FormError::MissingName.message());
    assert_eq!("missing the email", FormError::MissingEmail.message());
    assert_eq!("missing both the name and email", FormError::MissingBoth.message());
    assert_eq!("malformed form body", FormError::Malformed.message());
}

#[test]
fn subscribe_reads_uppercase_escapes() {
    let saved = parse_form_body("name=le%20guin%2Bco&email=a%40B.C").expect("Failed to parse");
    assert_eq!(saved.name, "le guin+co");
    assert_eq!(saved.email, "a@B.C");
}

#[test]
fn escaped_separators_do_not_split() {
    let saved = parse_form_body("name=a%26b%3Dc&email=e").expect("Failed to parse");
    assert_eq!(saved.name, "a&b=c");
    assert_eq!(saved.email, "e");
}
