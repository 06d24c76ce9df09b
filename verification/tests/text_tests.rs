use xdevs::gpt::{Job, ParseError};
use xdevs::modeling::{Coupled, Error, Kind, PortVal, Value};
use xdevs::gpt::GptModel;
use xdevs::text::{decimal_text, numbered, parse_pair, parse_signed, parse_unsigned};
use xdevs::Event;

#[test]
fn decimal_text_writes_numbers() {
    assert_eq!(decimal_text(0), "0");
    assert_eq!(decimal_text(7), "7");
    assert_eq!(decimal_text(10), "10");
    assert_eq!(decimal_text(1234567890), "1234567890");
    assert_eq!(decimal_text(u64::MAX), "18446744073709551615");
    assert_eq!(numbered("atomic_", 12), "atomic_12");
    assert_eq!(numbered("coupled_", 0), "coupled_0");
}

#[test]
fn parse_unsigned_reads_numbers_up_to_the_limit() {
    assert_eq!(parse_unsigned("42", 0, 2, 100), Some(42));
    assert_eq!(parse_unsigned("+42", 0, 3, 100), Some(42));
    assert_eq!(parse_unsigned("007", 0, 3, 100), Some(7));
    assert_eq!(parse_unsigned("100", 0, 3, 100), Some(100));
    assert_eq!(parse_unsigned("101", 0, 3, 100), None);
    assert_eq!(parse_unsigned("", 0, 0, 100), None);
    assert_eq!(parse_unsigned("+", 0, 1, 100), None);
    assert_eq!(parse_unsigned("-1", 0, 2, 100), None);
    assert_eq!(parse_unsigned("4a", 0, 2, 100), None);
    assert_eq!(parse_unsigned("x42y", 1, 3, 100), Some(42));
    assert_eq!(parse_unsigned("18446744073709551615", 0, 20, u64::MAX), Some(u64::MAX));
    assert_eq!(parse_unsigned("18446744073709551616", 0, 20, u64::MAX), None);
    assert_eq!(parse_unsigned("99999999999999999999999", 0, 23, u64::MAX), None);
}

#[test]
fn parse_signed_reads_integers() {
    assert_eq!(parse_signed("0", 0, 1), Some(0));
    assert_eq!(parse_signed("-0", 0, 2), Some(0));
    assert_eq!(parse_signed("-17", 0, 3), Some(-17));
    assert_eq!(parse_signed("+17", 0, 3), Some(17));
    assert_eq!(parse_signed("9223372036854775807", 0, 19), Some(i64::MAX));
    assert_eq!(parse_signed("9223372036854775808", 0, 19), None);
    assert_eq!(parse_signed("-9223372036854775808", 0, 20), Some(i64::MIN));
    assert_eq!(parse_signed("-9223372036854775809", 0, 20), None);
    assert_eq!(parse_signed("-", 0, 1), None);
    assert_eq!(parse_signed("--1", 0, 3), None);
}

#[test]
fn parse_pair_reads_two_numbers_in_brackets() {
    assert_eq!(parse_pair("(1, 2)", 10, 10), Some((1, 2)));
    assert_eq!(parse_pair("(1,2)", 10, 10), Some((1, 2)));
    assert_eq!(parse_pair("  ( 1 ,\t2 )\n", 10, 10), Some((1, 2)));
    assert_eq!(parse_pair("(11, 2)", 10, 10), None);
    assert_eq!(parse_pair("(1, 11)", 10, 10), None);
    assert_eq!(parse_pair("(1, 2, 3)", 10, 10), None);
    assert_eq!(parse_pair("(1 2)", 10, 10), None);
    assert_eq!(parse_pair("1, 2", 10, 10), None);
    assert_eq!(parse_pair("(1, 2", 10, 10), None);
    assert_eq!(parse_pair("(, 2)", 10, 10), None);
    assert_eq!(parse_pair("()", 10, 10), None);
    assert_eq!(parse_pair("", 10, 10), None);
    assert_eq!(parse_pair("(", 10, 10), None);
}

#[test]
fn job_text_round_trip() {
    assert_eq!(Job(3, 40).to_string(), "(3, 40)");
    assert_eq!(Job::from_str("(3, 40)"), Ok(Job(3, 40)));
    assert_eq!(Job::from_str(" (3,40) "), Ok(Job(3, 40)));
    assert_eq!(Job::from_str("(3)"), Err(ParseError()));
    assert_eq!(Job::from_str("3, 40"), Err(ParseError()));
    assert_eq!(Job::from_str("(3, 40, 5)"), Err(ParseError()));
    assert_eq!(Job::from_str(&Job(17, 1).to_string()), Ok(Job(17, 1)));
}

#[test]
fn value_text_round_trip() {
    let values = vec![
        Value::Bool(true),
        Value::Bool(false),
        Value::Count(0),
        Value::Count(usize::MAX),
        Value::Int(-5),
        Value::Int(i64::MIN),
        Value::Int(i64::MAX),
        Value::Job(4, 50),
    ];
    for value in values {
        assert_eq!(Value::parse(value.kind(), &value.to_text()), Some(value));
    }
    assert_eq!(Value::Bool(true).to_text(), "true");
    assert_eq!(Value::Count(12).to_text(), "12");
    assert_eq!(Value::Int(-12).to_text(), "-12");
    assert_eq!(Value::Job(1, 2).to_text(), "(1, 2)");
    assert_eq!(Value::parse(Kind::Bool, "True"), None);
    assert_eq!(Value::parse(Kind::Bool, "1"), None);
    assert_eq!(Value::parse(Kind::Count, "-1"), None);
    assert_eq!(Value::parse(Kind::Int, "1.5"), None);
    assert_eq!(Value::parse(Kind::Job, "7"), None);
    assert_eq!(Value::parse(Kind::Count, "7"), Some(Value::Count(7)));
}

#[test]
fn event_holds_port_and_value() {
    let e = Event::new("input_req", "12");
    assert_eq!(e.port(), "input_req");
    assert_eq!(e.value(), "12");
    assert_eq!(e.to_string(), "(input_req, 12)");
    assert_eq!(e, Event::new("input_req", "12"));
    assert_ne!(e, Event::new("input_req", "13"));
}

#[test]
fn inject_appends_a_parsed_value() {
    let mut c: Coupled<GptModel> = Coupled::new("c");
    c.add_in_port("jobs", Kind::Job);
    c.add_in_port("flags", Kind::Bool);
    assert_eq!(c.inject(&Event::new("jobs", "(1, 2)")), Ok(()));
    assert_eq!(c.inject(&Event::new("jobs", "(3, 4)")), Ok(()));
    assert_eq!(c.inject(&Event::new("flags", "true")), Ok(()));
    assert_eq!(
        c.component.get_model().in_port(0).get_values(),
        &vec![Value::Job(1, 2), Value::Job(3, 4)]
    );
    assert_eq!(c.component.get_model().in_port(1).get_values(), &vec![Value::Bool(true)]);
}

#[test]
fn inject_reports_unknown_port_and_bad_value() {
    let mut c: Coupled<GptModel> = Coupled::new("c");
    c.add_in_port("jobs", Kind::Job);
    c.add_out_port("out", Kind::Count);
    assert_eq!(c.inject(&Event::new("nowhere", "(1, 2)")), Err(Error::UnknownPort));
    assert_eq!(c.inject(&Event::new("out", "1")), Err(Error::UnknownPort));
    assert_eq!(c.inject(&Event::new("jobs", "12")), Err(Error::ValueParseError));
    assert!(c.component.is_input_empty());
}

#[test]
fn eject_lists_outputs_port_after_port() {
    let mut c: Coupled<GptModel> = Coupled::new("c");
    let a = c.add_out_port("a", Kind::Count);
    let b = c.add_out_port("b", Kind::Bool);
    assert!(c.eject().is_empty());
    b.add_value(c.component.get_model_mut(), Value::Bool(false));
    a.add_values(c.component.get_model_mut(), &vec![Value::Count(1), Value::Count(2)]);
    assert_eq!(
        c.eject(),
        vec![Event::new("a", "1"), Event::new("a", "2"), Event::new("b", "false")]
    );
}

#[test]
fn blanks_are_the_white_space_of_unicode() {
    assert_eq!(Job::from_str("\u{b}(3, 40)"), Ok(Job(3, 40)));
    assert_eq!(Job::from_str("\u{a0}(\u{2003}3\u{c},\u{3000}40\u{85})\u{2029}"), Ok(Job(3, 40)));
    assert_eq!(Job::from_str("\u{200b}(3, 40)"), Err(ParseError()));
    assert_eq!(Job::from_str("(3\u{200b}, 40)"), Err(ParseError()));
    let mut c = '\0';
    loop {
        let text = format!("{c}(1,2)");
        assert_eq!(parse_pair(&text, 9, 9).is_some(), c.is_whitespace());
        match char::from_u32(c as u32 + 1) {
            Some(next) => c = next,
            None => {
                if c as u32 >= 0x10ffff {
                    break;
                }
                c = '\u{e000}';
            }
        }
    }
}
