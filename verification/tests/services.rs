use learn_rust_with_tests::error_types::v1::{outcome, read_response, GetterError};
use learn_rust_with_tests::http_handlers_revisited::v1::{
    register_user, registration_reply, NewUser, RegisterError, UserService,
};
use learn_rust_with_tests::iterators::v2::{first_payment_to, Transfer};
use learn_rust_with_tests::maths::v3::{time_of_day, write_clock, BEZEL, SVG_END, SVG_START};

#[test]
fn a_non_200_response_is_a_typed_status_error() {
    let fetched = read_response("HTTP/1.1 418 I'm a teapot\r\ncontent-length: 0\r\n\r\n");
    assert_eq!(
        outcome("127.0.0.1:80", fetched),
        Err(GetterError::BadStatus {
            url: "127.0.0.1:80".to_string(),
            status: 418
        })
    );
}

#[test]
fn a_200_response_returns_the_body() {
    let fetched = read_response("HTTP/1.1 200 OK\r\ncontent-length: 12\r\n\r\nhello, world");
    assert_eq!(outcome("127.0.0.1:80", fetched), Ok("hello, world".to_string()));
}

#[test]
fn an_unreachable_server_is_a_fetch_error() {
    let err = outcome("127.0.0.1:1", None).unwrap_err();
    assert!(matches!(err, GetterError::Fetch { .. }), "{err:?}");
}

#[test]
fn responses_without_a_status_line_are_unreadable() {
    assert_eq!(read_response(""), None);
    assert_eq!(read_response("HTTP/1.1"), None);
    assert_eq!(read_response("HTTP/1.1 abc"), None);
    assert_eq!(read_response("HTTP/1.1 70000 Too big"), None);
    assert_eq!(read_response("HTTP/1.1 +204 No Content"), Some((204, String::new())));
    assert_eq!(read_response("  HTTP/1.1\t200\r\n\r\n"), Some((200, String::new())));
}

#[test]
fn getter_errors_describe_themselves() {
    assert_eq!(
        GetterError::Fetch {
            url: "x".to_string()
        }
        .to_string(),
        "problem fetching from x"
    );
    assert_eq!(
        GetterError::BadStatus {
            url: "x".to_string(),
            status: 418
        }
        .to_string(),
        "did not get 200 from x, got 418"
    );
}

struct MockUserService {
    result: fn() -> Result<String, RegisterError>,
}

impl UserService for MockUserService {
    fn register(&self, _user: NewUser) -> Result<String, RegisterError> {
        (self.result)()
    }
}

#[test]
fn registers_a_valid_user_and_returns_201_with_the_id() {
    let service = MockUserService {
        result: || Ok("user-42".to_string()),
    };
    let (status, body) = register_user(
        &service,
        NewUser {
            name: "Ruth".to_string(),
        },
    );
    assert_eq!(status, 201);
    assert_eq!(body, "user-42");
}

#[test]
fn a_duplicate_user_is_a_409() {
    assert_eq!(registration_reply(Err(RegisterError::AlreadyExists)).0, 409);
    assert_eq!(
        registration_reply(Err(RegisterError::Unavailable("db down".to_string()))),
        (500, String::new())
    );
}

#[test]
fn the_time_of_day_comes_from_the_seconds_since_the_epoch() {
    let time = time_of_day(86_400 * 3 + 3600 * 13 + 60 * 45 + 30);
    assert_eq!((time.hours, time.minutes, time.seconds), (13, 45, 30));
    let midnight = time_of_day(0);
    assert_eq!((midnight.hours, midnight.minutes, midnight.seconds), (0, 0, 0));
}

fn transfer(from: &str, to: &str) -> Transfer {
    Transfer {
        from: from.to_string(),
        to: to.to_string(),
    }
}

#[test]
fn finds_the_first_payment_to_a_person() {
    let transfers = vec![transfer("Chris", "Riya"), transfer("Adil", "Chris")];
    let payment = first_payment_to(&transfers, "Chris").expect("expected a payment");
    assert_eq!(transfers[payment].from, "Adil");
    assert_eq!(first_payment_to(&transfers, "Nobody"), None);
}

#[test]
fn the_clock_writes_its_hands_between_the_rim_and_the_close() {
    let mut svg = Vec::new();
    write_clock(&mut svg, "<hour/>", "<minute/>", "<second/>").unwrap();
    let svg = String::from_utf8(svg).unwrap();
    assert_eq!(
        svg,
        format!("{SVG_START}\n{BEZEL}\n<hour/>\n<minute/>\n<second/>\n{SVG_END}\n")
    );
    assert!(svg.starts_with("<?xml version=\"1.0\""));
}
