use std::cell::RefCell;
use std::collections::HashMap;
use std::rc::Rc;
use std::time::Duration;

use learn_rust_with_tests::cancellation::{v1 as cancellation_v1, v2 as cancellation_v2};
use learn_rust_with_tests::cancellation_aware_reader::v1::{CancellableReader, CancellationToken};
use learn_rust_with_tests::concurrency::v1::check_websites;
use learn_rust_with_tests::dependency_injection::{v1 as di_v1, v2 as di_v2, v3 as di_v3};
use learn_rust_with_tests::mocking::{v1 as mocking_v1, v2 as mocking_v2, v3 as mocking_v3, v4 as mocking_v4};
use learn_rust_with_tests::maths::v3::{write_clock, BEZEL, SVG_START};
use learn_rust_with_tests::output::Output;

#[test]
fn lib_greet_writes_the_greeting() {
    let mut buffer = Vec::new();

    di_v1::greet(&mut buffer, "Chris").unwrap();

    let got = String::from_utf8(buffer).unwrap();
    assert_eq!(got, "Hello, Chris");
}

#[test]
fn main_greet_writes_the_greeting() {
    let mut buffer = Vec::new();
    di_v2::greet(&mut buffer, "Chris").unwrap();
    assert_eq!(String::from_utf8(buffer).unwrap(), "Hello, Chris");

    let mut buffer = Vec::new();
    di_v3::greet(&mut buffer, "Chris").unwrap();
    assert_eq!(String::from_utf8(buffer).unwrap(), "Hello, Chris");
}

struct StubStore {
    response: String,
}

impl cancellation_v1::Store for StubStore {
    fn fetch(&self) -> String {
        self.response.clone()
    }
}

struct SpyStore {
    response: String,
}

impl cancellation_v2::Store for SpyStore {
    fn fetch(
        &self,
        cancel: &cancellation_v2::CancellationToken,
    ) -> Result<String, cancellation_v2::Cancelled> {
        let mut result = String::new();
        for c in self.response.chars() {
            if cancel.is_cancelled() {
                return Err(cancellation_v2::Cancelled);
            }
            result.push(c);
        }
        Ok(result)
    }
}

#[test]
fn lib_returns_data_from_the_store() {
    let store = StubStore {
        response: "hello, world".to_string(),
    };
    let mut response = Vec::new();
    cancellation_v1::respond(&mut response, &store).unwrap();
    assert_eq!(String::from_utf8(response).unwrap(), "hello, world");

    let store = SpyStore {
        response: "hello, world".to_string(),
    };
    let cancel = cancellation_v2::CancellationToken::new();
    let mut response = Vec::new();
    cancellation_v2::respond(&mut response, &store, &cancel).unwrap();
    assert_eq!(String::from_utf8(response).unwrap(), "hello, world");
}

#[test]
fn writes_no_response_when_the_request_is_cancelled() {
    let store = SpyStore {
        response: "hello, world".to_string(),
    };
    let cancel = cancellation_v2::CancellationToken::new();
    let mut response = Vec::new();

    cancel.clone().cancel();
    cancellation_v2::respond(&mut response, &store, &cancel).unwrap();

    assert!(response.is_empty(), "a response should not have been written");
    assert_eq!(cancellation_v2::Cancelled.to_string(), "the work was cancelled");
}

#[test]
fn a_new_token_is_not_cancelled() {
    let token = cancellation_v2::CancellationToken::new();

    assert!(!token.is_cancelled());
}

#[test]
fn cancelling_flips_the_token() {
    let token = cancellation_v2::CancellationToken::new();

    token.cancel();

    assert!(token.is_cancelled());
}

#[test]
fn clones_share_the_same_signal() {
    let token = cancellation_v2::CancellationToken::new();
    let clone = token.clone();

    clone.cancel();

    assert!(token.is_cancelled());
}

fn read_to_string<R: learn_rust_with_tests::cancellation_aware_reader::v1::ByteSource>(
    reader: &mut CancellableReader<R>,
) -> std::io::Result<String> {
    let mut bytes = Vec::new();
    let mut buffer = [0u8; 4];
    loop {
        let n = reader.read(&mut buffer)?;
        if n == 0 {
            break;
        }
        bytes.extend_from_slice(&buffer[..n]);
    }
    Ok(String::from_utf8(bytes).unwrap())
}

#[test]
fn behaves_like_a_normal_reader_when_not_cancelled() {
    let cancel = CancellationToken::new();
    let mut reader = CancellableReader::new("123456".as_bytes(), cancel);

    let got = read_to_string(&mut reader).unwrap();

    assert_eq!(got, "123456");
}

#[test]
fn stops_reading_once_cancelled() {
    let cancel = CancellationToken::new();
    let mut reader = CancellableReader::new("123456".as_bytes(), cancel.clone());

    let mut buffer = [0u8; 3];
    let n = reader.read(&mut buffer).unwrap();
    assert_eq!(&buffer[..n], b"123");

    cancel.cancel();
    let result = reader.read(&mut buffer);

    assert!(result.is_err(), "expected a cancelled read");
    assert_eq!(result.unwrap_err().kind(), std::io::ErrorKind::Interrupted);
}

fn mock_website_checker(url: &str) -> bool {
    url != "waat://furhurterwe.geds"
}

#[test]
fn checks_all_the_websites() {
    let websites = [
        "http://google.com",
        "http://blog.gypsydave5.com",
        "waat://furhurterwe.geds",
    ];

    let want = HashMap::from([
        ("http://google.com".to_string(), true),
        ("http://blog.gypsydave5.com".to_string(), true),
        ("waat://furhurterwe.geds".to_string(), false),
    ]);

    let got: HashMap<String, bool> = check_websites(mock_website_checker, &websites)
        .into_iter()
        .collect();

    assert_eq!(got, want);
}

#[test]
fn main_counts_down_from_three_to_go() {
    let mut buffer = Vec::new();
    mocking_v1::countdown(&mut buffer).unwrap();
    assert_eq!(String::from_utf8(buffer).unwrap(), "3\n2\n1\nGo!");

    let spy_sleeper = SpyCounter {
        calls: RefCell::new(0),
    };
    let mut buffer = Vec::new();
    mocking_v2::countdown(&mut buffer, &spy_sleeper).unwrap();
    assert_eq!(String::from_utf8(buffer).unwrap(), "3\n2\n1\nGo!");
    assert_eq!(*spy_sleeper.calls.borrow(), 3, "not enough calls to sleeper");

    let calls = Rc::new(RefCell::new(Vec::new()));
    let mut buffer = Vec::new();
    mocking_v3::countdown(&mut buffer, &SpySleeper { calls: calls.clone() }).unwrap();
    assert_eq!(String::from_utf8(buffer).unwrap(), "3\n2\n1\nGo!");

    let mut buffer = Vec::new();
    mocking_v4::countdown(&mut buffer, &SpySleeper { calls }).unwrap();
    assert_eq!(String::from_utf8(buffer).unwrap(), "3\n2\n1\nGo!");
}

struct SpyCounter {
    calls: RefCell<u32>,
}

impl mocking_v2::Sleeper for SpyCounter {
    fn sleep(&self) {
        *self.calls.borrow_mut() += 1;
    }
}

#[derive(Debug, PartialEq, Eq, Clone, Copy)]
enum Operation {
    Write,
    Sleep,
}

struct SpySleeper {
    calls: Rc<RefCell<Vec<Operation>>>,
}

impl mocking_v3::Sleeper for SpySleeper {
    fn sleep(&self) {
        self.calls.borrow_mut().push(Operation::Sleep);
    }
}

impl mocking_v4::Sleeper for SpySleeper {
    fn sleep(&self) {
        self.calls.borrow_mut().push(Operation::Sleep);
    }
}

struct SpyWriter {
    calls: Rc<RefCell<Vec<Operation>>>,
}

impl Output for SpyWriter {
    fn write_text(&mut self, _text: &str) -> std::io::Result<()> {
        self.calls.borrow_mut().push(Operation::Write);
        Ok(())
    }
}

#[test]
fn main_sleeps_before_every_print() {
    let calls = Rc::new(RefCell::new(Vec::new()));
    let mut writer = SpyWriter {
        calls: Rc::clone(&calls),
    };
    let sleeper = SpySleeper {
        calls: Rc::clone(&calls),
    };
    mocking_v3::countdown(&mut writer, &sleeper).unwrap();
    assert_eq!(*calls.borrow(), vec![Operation::Write, Operation::Sleep, Operation::Write, Operation::Sleep, Operation::Write, Operation::Sleep, Operation::Write]);

    let calls = Rc::new(RefCell::new(Vec::new()));
    let mut writer = SpyWriter {
        calls: Rc::clone(&calls),
    };
    let sleeper = SpySleeper {
        calls: Rc::clone(&calls),
    };
    mocking_v4::countdown(&mut writer, &sleeper).unwrap();
    assert_eq!(*calls.borrow(), vec![Operation::Write, Operation::Sleep, Operation::Write, Operation::Sleep, Operation::Write, Operation::Sleep, Operation::Write]);
}

#[test]
fn configurable_sleeper_sleeps_for_the_configured_duration() {
    let slept = RefCell::new(Duration::ZERO);
    let sleeper = mocking_v4::ConfigurableSleeper::new(Duration::from_secs(5), |duration| {
        *slept.borrow_mut() = duration
    });

    mocking_v4::Sleeper::sleep(&sleeper);

    assert_eq!(*slept.borrow(), Duration::from_secs(5));
}

#[test]
fn each_countdown_line_is_a_number_and_a_break() {
    assert_eq!(learn_rust_with_tests::mocking::countdown_line(3), "3\n");
    assert_eq!(learn_rust_with_tests::mocking::countdown_line(10), "10\n");
}

#[test]
fn a_repeated_url_is_checked_into_one_entry() {
    let got = check_websites(mock_website_checker, &["http://a", "waat://furhurterwe.geds", "http://a"]);
    assert_eq!(got.len(), 2);
    let got: HashMap<String, bool> = got.into_iter().collect();
    assert_eq!(got.get("http://a"), Some(&true));
    assert_eq!(got.get("waat://furhurterwe.geds"), Some(&false));
}

#[test]
fn responding_writes_the_data_or_nothing() {
    let mut response = Vec::new();
    cancellation_v2::respond_with(&mut response, Ok("hello, world".to_string())).unwrap();
    assert_eq!(String::from_utf8(response).unwrap(), "hello, world");

    let mut response = Vec::new();
    assert!(cancellation_v2::respond_with(&mut response, Err(cancellation_v2::Cancelled)).is_ok());
    assert!(response.is_empty());
}

/// A sink that keeps what it is given and fails on its write numbered
/// `fails_at`, counting from zero.
struct FailingWriter {
    texts: Vec<String>,
    fails_at: usize,
    attempts: usize,
}

impl FailingWriter {
    fn new(fails_at: usize) -> FailingWriter {
        FailingWriter { texts: Vec::new(), fails_at, attempts: 0 }
    }
}

impl Output for FailingWriter {
    fn write_text(&mut self, text: &str) -> std::io::Result<()> {
        let attempt = self.attempts;
        self.attempts += 1;
        if attempt == self.fails_at {
            return Err(std::io::Error::new(std::io::ErrorKind::Other, format!("write {attempt} refused")));
        }
        self.texts.push(text.to_string());
        Ok(())
    }
}

#[test]
fn countdown_stops_at_the_first_failed_write() {
    let mut writer = FailingWriter::new(1);
    let err = mocking_v1::countdown(&mut writer).unwrap_err();
    assert_eq!(err.to_string(), "write 1 refused");
    assert_eq!(writer.texts, vec!["3\n".to_string()]);
    assert_eq!(writer.attempts, 2);

    let mut writer = FailingWriter::new(3);
    let spy_sleeper = SpyCounter { calls: RefCell::new(0) };
    let err = mocking_v2::countdown(&mut writer, &spy_sleeper).unwrap_err();
    assert_eq!(err.to_string(), "write 3 refused");
    assert_eq!(writer.texts, vec!["3\n".to_string(), "2\n".to_string(), "1\n".to_string()]);
    assert_eq!(writer.attempts, 4);
}

#[test]
fn greet_stops_at_the_first_failed_write() {
    let mut writer = FailingWriter::new(0);
    let err = di_v2::greet(&mut writer, "Chris").unwrap_err();
    assert_eq!(err.to_string(), "write 0 refused");
    assert!(writer.texts.is_empty());
    assert_eq!(writer.attempts, 1);

    let mut writer = FailingWriter::new(1);
    let err = di_v3::greet(&mut writer, "Chris").unwrap_err();
    assert_eq!(err.to_string(), "write 1 refused");
    assert_eq!(writer.texts, vec!["Hello, ".to_string()]);
}

#[test]
fn clock_stops_at_the_first_failed_write() {
    let mut writer = FailingWriter::new(2);
    let err = write_clock(&mut writer, "<hour/>", "<minute/>", "<second/>").unwrap_err();
    assert_eq!(err.to_string(), "write 2 refused");
    assert_eq!(writer.texts, vec![format!("{SVG_START}\n"), format!("{BEZEL}\n")]);
    assert_eq!(writer.attempts, 3);
}
