use logger::format::{compile, FieldKind, Format, FormatError, FormatUnit};
use logger::render::{render, Elapsed, RenderContext, Timestamp};
use logger::Logger;

fn timestamp() -> Timestamp {
    Timestamp {
        year: 2015,
        month: 7,
        day: 8,
        hour: 12,
        minute: 34,
        second: 56,
        microsecond: 789012,
        utc_offset_secs: 0,
    }
}

fn ctx() -> RenderContext {
    RenderContext {
        method: "GET".to_owned(),
        uri: "http://localhost:3000/path".to_owned(),
        status: Some("200 OK".to_owned()),
        remote_addr: "127.0.0.1:54321".to_owned(),
        request_time: timestamp(),
        response_time: Elapsed { secs: 2, subsec_nanos: Some(500_000_000) },
    }
}

#[test]
fn default_format_matches_compiled_template() {
    let compiled = compile("{method} {uri} -> {status} ({response-time} ms)").unwrap();
    assert_eq!(compiled, Format::default());
}

#[test]
fn empty_template_compiles_to_empty_and_renders_empty() {
    let compiled = compile("").unwrap();
    assert_eq!(compiled.0.len(), 0);
    assert_eq!(render(&compiled, &ctx()), "");
}

#[test]
fn unknown_field_token_is_an_error() {
    match compile("{unknown}") {
        Err(FormatError::UnknownFieldToken(tok)) => assert_eq!(tok, "unknown"),
        other => panic!("expected an unknown-field error, got {:?}", other),
    }
}

#[test]
fn empty_token_is_an_unknown_field() {
    match compile("{}") {
        Err(FormatError::UnknownFieldToken(tok)) => assert_eq!(tok, ""),
        other => panic!("expected an unknown-field error, got {:?}", other),
    }
}

#[test]
fn unterminated_placeholder_is_an_error() {
    match compile("{method") {
        Err(FormatError::UnterminatedPlaceholder(pos)) => assert_eq!(pos, 0),
        other => panic!("expected an unterminated-placeholder error, got {:?}", other),
    }
}

#[test]
fn unterminated_placeholder_reports_brace_position() {
    match compile("ab{status") {
        Err(FormatError::UnterminatedPlaceholder(pos)) => assert_eq!(pos, 2),
        other => panic!("expected an unterminated-placeholder error, got {:?}", other),
    }
}

#[test]
fn literal_text_around_method() {
    let compiled = compile("X{method}Y").unwrap();
    assert_eq!(render(&compiled, &ctx()), "XGETY");
}

#[test]
fn adjacent_placeholders_have_no_separator() {
    let compiled = compile("{method}{method}").unwrap();
    assert_eq!(render(&compiled, &ctx()), "GETGET");
}

#[test]
fn compiled_units_are_in_template_order() {
    let compiled = compile("a{uri}b").unwrap();
    assert_eq!(
        compiled.0,
        vec![
            FormatUnit::Literal("a".to_owned()),
            FormatUnit::FieldPlaceholder(FieldKind::Uri),
            FormatUnit::Literal("b".to_owned()),
        ]
    );
}

#[test]
fn missing_status_renders_sentinel() {
    let compiled = compile("{status}").unwrap();
    let mut c = ctx();
    c.status = None;
    assert_eq!(render(&compiled, &c), "<missing status code>");
}

#[test]
fn present_status_renders_as_given() {
    let compiled = compile("{status}").unwrap();
    assert_eq!(render(&compiled, &ctx()), "200 OK");
}

#[test]
fn response_time_two_seconds_and_a_half() {
    let compiled = compile("{response-time}").unwrap();
    let mut c = ctx();
    c.response_time = Elapsed { secs: 2, subsec_nanos: Some(500_000_000) };
    assert_eq!(render(&compiled, &c), "2500 ms");
}

#[test]
fn response_time_fraction_trims_trailing_zeros() {
    let compiled = compile("{response-time}").unwrap();
    let mut c = ctx();
    c.response_time = Elapsed { secs: 0, subsec_nanos: Some(12_500_000) };
    assert_eq!(render(&compiled, &c), "12.5 ms");
}

#[test]
fn response_time_sub_millisecond_fraction() {
    let compiled = compile("{response-time}").unwrap();
    let mut c = ctx();
    c.response_time = Elapsed { secs: 0, subsec_nanos: Some(1_234) };
    assert_eq!(render(&compiled, &c), "0.001234 ms");
}

#[test]
fn response_time_missing_subseconds_count_as_zero() {
    let compiled = compile("{response-time}").unwrap();
    let mut c = ctx();
    c.response_time = Elapsed { secs: 1, subsec_nanos: None };
    assert_eq!(render(&compiled, &c), "1000 ms");
}

#[test]
fn remote_addr_renders_as_given() {
    let compiled = compile("{remote-addr}").unwrap();
    assert_eq!(render(&compiled, &ctx()), "127.0.0.1:54321");
}

#[test]
fn uri_renders_as_given() {
    let compiled = compile("{uri}").unwrap();
    assert_eq!(render(&compiled, &ctx()), "http://localhost:3000/path");
}

#[test]
fn request_time_fixed_pattern() {
    let compiled = compile("{request-time}").unwrap();
    assert_eq!(render(&compiled, &ctx()), "2015-07-08T12:34:56.789012Z+0000");
}

#[test]
fn request_time_pads_narrow_fields() {
    let compiled = compile("{request-time}").unwrap();
    let mut c = ctx();
    c.request_time = Timestamp {
        year: 33,
        month: 1,
        day: 2,
        hour: 3,
        minute: 4,
        second: 5,
        microsecond: 6,
        utc_offset_secs: 0,
    };
    assert_eq!(render(&compiled, &c), "0033-01-02T03:04:05.000006Z+0000");
}

#[test]
fn request_time_negative_utc_offset() {
    let compiled = compile("{request-time}").unwrap();
    let mut c = ctx();
    c.request_time.utc_offset_secs = -19800;
    assert_eq!(render(&compiled, &c), "2015-07-08T12:34:56.789012Z-0530");
}

#[test]
fn request_time_positive_utc_offset() {
    let compiled = compile("{request-time}").unwrap();
    let mut c = ctx();
    c.request_time.utc_offset_secs = 3600;
    assert_eq!(render(&compiled, &c), "2015-07-08T12:34:56.789012Z+0100");
}

#[test]
fn repeated_compile_and_render_are_identical() {
    let template = "pre {method} {uri} {status} {response-time} {remote-addr} {request-time} post";
    let first = render(&compile(template).unwrap(), &ctx());
    let second = render(&compile(template).unwrap(), &ctx());
    assert_eq!(first, second);
}

#[test]
fn rendering_succeeds_with_every_optional_absent() {
    let c = RenderContext {
        method: "GET".to_owned(),
        uri: "/".to_owned(),
        status: None,
        remote_addr: "0.0.0.0:0".to_owned(),
        request_time: timestamp(),
        response_time: Elapsed { secs: 0, subsec_nanos: None },
    };
    let template = "{method} {uri} {status} {response-time} {remote-addr} {request-time}";
    let line = render(&compile(template).unwrap(), &c);
    assert_eq!(
        line,
        "GET / <missing status code> 0 ms 0.0.0.0:0 2015-07-08T12:34:56.789012Z+0000"
    );
}

#[test]
fn logger_pair_renders_identically() {
    let format = compile("{method} {uri}").unwrap();
    let (before, after) = Logger::new(Some(format));
    let c = ctx();
    assert_eq!(before.log_line(&c), after.log_line(&c));
    assert_eq!(before.log_line(&c), "GET http://localhost:3000/path");
}

#[test]
fn logger_without_format_uses_the_default() {
    let (before, _after) = Logger::new(None);
    let line = before.log_line(&ctx());
    assert_eq!(line, "GET http://localhost:3000/path -> 200 OK (2500 ms ms)");
}

#[test]
fn cloned_format_renders_the_same() {
    let format = compile("{method} -> {status}").unwrap();
    let copy = format.clone();
    assert_eq!(render(&format, &ctx()), render(&copy, &ctx()));
}
