use spice_connectors::batch::truncated;
use spice_connectors::columns::{project_fields, DataType, Field, ProjectionError};
use spice_connectors::json::{JsonNumber, JsonValue, Row};
use spice_connectors::numeral::{decimal_text, parse_number, signed_decimal_text};
use spice_connectors::order::{comes_before, sort_texts};
use spice_connectors::params::Parameters;
use spice_connectors::retry::{backoff, Retry, RetryStep, TransportError};
use spice_connectors::text::{replace_char, split_at_char, to_lowercase, trimmed, words_of};

#[test]
fn the_last_value_of_a_name_counts() {
    let mut r = Row::new();
    r.insert("a".to_string(), JsonValue::Bool(true));
    r.insert("b".to_string(), JsonValue::Null);
    r.insert("a".to_string(), JsonValue::Bool(false));
    assert_eq!(r.get("a").and_then(JsonValue::as_bool), Some(false));
    assert!(r.get("b").unwrap().is_null());
    let r = r.without("a");
    assert!(r.get("a").is_none());
    assert!(r.get("b").is_some());
}

#[test]
fn values_are_read_by_their_type() {
    let n = JsonValue::Number(JsonNumber::NegInt(-3));
    assert_eq!(n.as_i64(), Some(-3));
    assert_eq!(n.as_number(), Some("-3".to_string()));
    assert_eq!(n.to_text(), Some("-3".to_string()));
    assert_eq!(n.as_str(), None);
    let f = JsonValue::Number(JsonNumber::Float("1e3".to_string()));
    assert_eq!(f.as_i64(), None);
    assert_eq!(f.to_text(), Some("1e3".to_string()));
    assert_eq!(JsonValue::Null.to_text(), None);
    assert_eq!(JsonValue::Bool(true).to_text(), Some("true".to_string()));
    let o = JsonValue::Object { rendering: "{}".to_string() };
    assert_eq!(o.to_text(), Some("{}".to_string()));
}

#[test]
fn numerals_are_written_and_read() {
    assert_eq!(decimal_text(0), "0");
    assert_eq!(decimal_text(u64::MAX), "18446744073709551615");
    assert_eq!(signed_decimal_text(-42), "-42");
    assert_eq!(parse_number("18446744073709551615", u64::MAX), Some(u64::MAX));
    assert_eq!(parse_number("18446744073709551616", u64::MAX), None);
    assert_eq!(parse_number("+7", 10), Some(7));
    assert_eq!(parse_number("", 10), None);
    assert_eq!(parse_number("+", 10), None);
    assert_eq!(parse_number("1_0", 100), None);
    assert_eq!(parse_number("11", 10), None);
}

#[test]
fn pauses_double_as_far_as_they_go() {
    assert_eq!(backoff(0), 200);
    assert_eq!(backoff(5), 6400);
    assert_eq!(backoff(31), 200 * 2_147_483_648);
    assert_eq!(backoff(32), 200 * 4_294_967_295);
    assert_eq!(backoff(u32::MAX), 200 * 4_294_967_295);
}

#[test]
fn retries_end() {
    let mut r = Retry::new(1);
    assert_eq!(r.after_failure(true, 199), RetryStep::Again { after_ms: 399 });
    assert_eq!(r.after_failure(true, 0), RetryStep::GiveUp);
    assert_eq!(Retry::new(5).after_failure(false, 0), RetryStep::GiveUp);
    let failure = |timeout: bool, connect: bool, request: bool, status: Option<u16>| TransportError {
        timeout,
        connect,
        request,
        status,
        message: String::new(),
    };
    assert!(failure(true, false, false, None).is_transient());
    assert!(failure(false, true, false, None).is_transient());
    assert!(failure(false, false, true, None).is_transient());
    assert!(failure(false, false, false, Some(599)).is_transient());
    assert!(!failure(false, false, false, Some(600)).is_transient());
    assert!(!failure(false, false, false, Some(499)).is_transient());
    assert!(!failure(false, false, false, None).is_transient());
}

#[test]
fn projections_choose_columns() {
    let fields = vec![Field::new("a", DataType::Utf8, true), Field::new("b", DataType::Int64, false)];
    let chosen = project_fields(&fields, &Some(vec![1, 0, 1])).unwrap();
    let names: Vec<&str> = chosen.iter().map(|f| f.name.as_str()).collect();
    assert_eq!(names, vec!["b", "a", "b"]);
    assert_eq!(
        project_fields(&fields, &Some(vec![0, 7, 9])).unwrap_err(),
        ProjectionError { index: 7, columns: 2 }
    );
}

#[test]
fn texts_are_ordered_and_split() {
    assert!(comes_before("a", "b"));
    assert!(comes_before("a", "ab"));
    assert!(!comes_before("a", "a"));
    assert!(comes_before("z", "é"));
    let v = |s: &[&str]| s.iter().map(|x| x.to_string()).collect::<Vec<String>>();
    assert_eq!(sort_texts(&v(&["c", "a", "c", "b"])), v(&["a", "b", "c"]));
    assert_eq!(split_at_char(",a,,b", ','), v(&["", "a", "", "b"]));
    assert_eq!(split_at_char("", ','), v(&[""]));
    assert_eq!(replace_char("a'b'", '\'', "''"), "a''b''");
    assert_eq!(trimmed("\u{2003} a b \t"), "a b");
    assert_eq!(to_lowercase("ÀB"), "àb");
    let words = words_of(&"MATCH (n:É_1) é".chars().collect::<Vec<char>>());
    assert_eq!(words, v(&["MATCH", "n", "É_1", "é"]));
}

#[test]
fn low_bits_wrap() {
    for n in [0i64, -1, 1, i64::MIN, i64::MAX, 1 << 31, -(1 << 31), (1 << 32) + 5, -(1 << 40) - 7] {
        assert_eq!(truncated(n), n as i32);
    }
}

#[test]
fn settings_can_be_replaced() {
    let mut p = Parameters::new();
    p.set("a".to_string(), "1".to_string());
    p.set("a".to_string(), String::new());
    assert_eq!(p.get("a"), Some(""));
    assert_eq!(p.get_filled("a"), None);
    assert_eq!(p.get_owned("b"), None);
}

#[test]
fn words_are_the_longest_runs() {
    let words = |s: &str| words_of(&s.chars().collect::<Vec<char>>());
    assert_eq!(words("set_value=apoc.create(1)"), vec!["set_value", "apoc", "create", "1"]);
    assert_eq!(words("été-_x"), vec!["été", "_x"]);
    assert!(words(" .;- ").is_empty());
}
