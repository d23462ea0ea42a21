//! Tests for `Error`: its messages and what a client is told about it.

use cosmeredle::Error;

const ODIUM: &str = "Odium's influence has blocked your request";

fn sql(message: &str, unique_violation: bool) -> Error {
    Error::Sql { message: message.to_string(), unique_violation }
}

#[test]
fn display_messages_are_prefixed_by_kind() {
    let io_err = Error::Io("disk on fire".into());
    assert_eq!(io_err.message(), "I/O error: disk on fire");

    let sql_err = sql("no rows returned by a query that expected to return at least one row", false);
    assert!(sql_err.message().starts_with("Database error: "), "{}", sql_err.message());

    assert_eq!(Error::Utf8.message(), "Invalid UTF-8 encountered");

    // The two free-form variants are passed through verbatim...
    assert_eq!(Error::String("raw".into()).message(), "raw");
    assert_eq!(Error::User("raw".into()).message(), "raw");
}

#[test]
fn every_wrapped_failure_names_its_kind() {
    let cases = vec![
        (Error::Bcrypt("x".into()), "Password encryption/decryption error: x"),
        (Error::CborDe("x".into()), "Deserialization error: x"),
        (Error::CborSer("x".into()), "Serialization error: x"),
        (Error::Format("x".into()), "Formatting error: x"),
        (Error::Join("x".into()), "Tokio join error: x"),
        (Error::MediaWiki("x".into()), "Coppermind error: x"),
        (Error::Sched("x".into()), "Scheduler error: x"),
        (Error::SessionStore("x".into()), "Error storing sessions: x"),
        (sql("x", true), "Database error: x"),
    ];
    for (e, expected) in cases {
        assert_eq!(e.message(), expected);
    }
}

#[test]
fn user_errors_become_400_and_echo_their_message() {
    let e = Error::User("pick a real character".into());
    assert_eq!(e.status(), 400);
    assert_eq!(e.body(), "pick a real character");
}

#[test]
fn user_error_message_is_reflected_to_the_client_verbatim() {
    // Worth knowing when deciding what may be put in an `Error::User`.
    let e = Error::User("<script>alert(1)</script>".into());
    assert_eq!(e.body(), "<script>alert(1)</script>");
}

#[test]
fn internal_errors_become_500_with_a_generic_message() {
    let cases = vec![
        Error::Io("boom".into()),
        Error::String("internal detail".into()),
        sql("no rows returned by a query that expected to return at least one row", false),
        Error::Utf8,
        Error::Format("an error occurred when formatting an argument".into()),
    ];

    for e in cases {
        let label = e.message();
        assert_eq!(e.status(), 500, "{label}");
        assert_eq!(e.body(), ODIUM, "{label}");
    }
}

#[test]
fn internal_errors_do_not_leak_their_detail_to_the_client() {
    let body = Error::String("secret: /etc/passwd".into()).body();
    assert!(!body.contains("secret"), "body leaked internals: {body}");
}

#[test]
fn missing_row_is_reported_as_an_internal_error() {
    let e = sql("no rows returned by a query that expected to return at least one row", false);
    assert_eq!(e.status(), 500);
}

#[test]
fn unique_violations_become_409() {
    let e = sql("UNIQUE constraint failed: t.x", true);
    assert_eq!(e.status(), 409);
    assert_eq!(e.body(), "", "409 is returned with no explanatory body");
}

#[test]
fn non_unique_database_errors_still_become_500() {
    let e = sql("no such table: does_not_exist", false);
    assert_eq!(e.status(), 500);
    assert_eq!(e.body(), ODIUM);
}
