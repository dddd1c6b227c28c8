use logbridge::encode::encode_event;
use logbridge::event::LogEvent;
use logbridge::parse::parse_event;

fn event(project: &str, level: &str, payload: &str, trace: &str) -> LogEvent {
    LogEvent {
        project: project.to_string(),
        level: level.to_string(),
        payload: payload.to_string(),
        trace: trace.to_string(),
    }
}

fn assert_fields(ev: &LogEvent, project: &str, level: &str, payload: &str, trace: &str) {
    assert_eq!(ev.project, project);
    assert_eq!(ev.level, level);
    assert_eq!(ev.payload, payload);
    assert_eq!(ev.trace, trace);
}

#[test]
fn encode_plain_event_exactly() {
    let ev = event("app", "error", "boom", "at foo()");
    assert_eq!(
        encode_event(&ev),
        "{\"project\":\"app\",\"level\":\"error\",\"payload\":\"boom\",\"trace\":\"at foo()\"}"
    );
}

#[test]
fn encode_escapes_exactly() {
    let ev = event("p", "l", "a\"b\\c\nd\u{1}", "t");
    assert_eq!(
        encode_event(&ev),
        "{\"project\":\"p\",\"level\":\"l\",\"payload\":\"a\\\"b\\\\c\\u000ad\\u0001\",\"trace\":\"t\"}"
    );
}

#[test]
fn encode_empty_fields_exactly() {
    let ev = event("", "", "", "");
    assert_eq!(
        encode_event(&ev),
        "{\"project\":\"\",\"level\":\"\",\"payload\":\"\",\"trace\":\"\"}"
    );
}

#[test]
fn parse_example_body() {
    let body = "{\"project\":\"app\",\"level\":\"error\",\"payload\":\"boom\",\"trace\":\"at foo()\"}";
    let ev = parse_event(body).expect("example body parses");
    assert_fields(&ev, "app", "error", "boom", "at foo()");
}

#[test]
fn parse_accepts_whitespace_between_tokens() {
    let body = " {\n \"project\" : \"a\" ,\t\"level\":\"b\", \"payload\" :\"c\",\r\n\"trace\": \"d\" } ";
    let ev = parse_event(body).expect("spaced body parses");
    assert_fields(&ev, "a", "b", "c", "d");
}

#[test]
fn parse_accepts_any_member_order() {
    let body = "{\"trace\":\"d\",\"payload\":\"c\",\"level\":\"b\",\"project\":\"a\"}";
    let ev = parse_event(body).expect("reordered body parses");
    assert_fields(&ev, "a", "b", "c", "d");
}

#[test]
fn parse_decodes_escapes() {
    let body = "{\"project\":\"\\u0041\\n\",\"level\":\"\\t\\\\\",\"payload\":\"\\\"\\/\",\"trace\":\"\\u00e9\\b\\f\\r\"}";
    let ev = parse_event(body).expect("escaped body parses");
    assert_fields(&ev, "A\n", "\t\\", "\"/", "\u{e9}\u{8}\u{c}\r");
}

#[test]
fn parse_accepts_empty_field_values() {
    let body = "{\"project\":\"\",\"level\":\"\",\"payload\":\"\",\"trace\":\"\"}";
    let ev = parse_event(body).expect("empty fields parse");
    assert_fields(&ev, "", "", "", "");
}

#[test]
fn parse_ignores_unknown_text_members() {
    let body = "{\"project\":\"a\",\"extra\":\"x\",\"level\":\"b\",\"payload\":\"c\",\"trace\":\"d\"}";
    let ev = parse_event(body).expect("unknown member is ignored");
    assert_fields(&ev, "a", "b", "c", "d");
}

#[test]
fn parse_accepts_surrogate_pair_escape() {
    let body = "{\"project\":\"\\ud83d\\ude00\",\"level\":\"b\",\"payload\":\"c\",\"trace\":\"d\"}";
    let ev = parse_event(body).expect("surrogate pair parses");
    assert_fields(&ev, "\u{1f600}", "b", "c", "d");
}

#[test]
fn parse_rejects_unpaired_surrogate_escapes() {
    assert!(
        parse_event("{\"project\":\"\\ud83d\\u0041\",\"level\":\"b\",\"payload\":\"c\",\"trace\":\"d\"}")
            .is_none()
    );
    assert!(
        parse_event("{\"project\":\"\\udc00\",\"level\":\"b\",\"payload\":\"c\",\"trace\":\"d\"}")
            .is_none()
    );
    assert!(
        parse_event("{\"project\":\"\\ude00\\ud83d\",\"level\":\"b\",\"payload\":\"c\",\"trace\":\"d\"}")
            .is_none()
    );
}

#[test]
fn parse_ignores_unknown_members_of_any_type() {
    let body = "{\"project\":\"a\",\"num\":5,\"neg\":-1.5e+10,\"zero\":0,\"flag\":true,\"off\":false,\"nil\":null,\"arr\":[1,[2,\"x\"],{}],\"obj\":{\"k\":{\"l\":[true]}},\"empty\":[],\"level\":\"b\",\"payload\":\"c\",\"trace\":\"d\"}";
    let ev = parse_event(body).expect("unknown members of any type are skipped");
    assert_fields(&ev, "a", "b", "c", "d");
}

#[test]
fn parse_allows_repeated_unknown_member() {
    let body = "{\"x\":1,\"x\":2,\"project\":\"a\",\"level\":\"b\",\"payload\":\"c\",\"trace\":\"d\"}";
    let ev = parse_event(body).expect("repeated unknown member is tolerated");
    assert_fields(&ev, "a", "b", "c", "d");
}

#[test]
fn parse_rejects_malformed_unknown_values() {
    assert!(
        parse_event("{\"extra\":01,\"project\":\"a\",\"level\":\"b\",\"payload\":\"c\",\"trace\":\"d\"}")
            .is_none()
    );
    assert!(
        parse_event("{\"extra\":1.,\"project\":\"a\",\"level\":\"b\",\"payload\":\"c\",\"trace\":\"d\"}")
            .is_none()
    );
    assert!(
        parse_event("{\"extra\":[1,\"project\":\"a\",\"level\":\"b\",\"payload\":\"c\",\"trace\":\"d\"}")
            .is_none()
    );
    assert!(
        parse_event("{\"extra\":tru,\"project\":\"a\",\"level\":\"b\",\"payload\":\"c\",\"trace\":\"d\"}")
            .is_none()
    );
    assert!(
        parse_event("{\"extra\":1e,\"project\":\"a\",\"level\":\"b\",\"payload\":\"c\",\"trace\":\"d\"}")
            .is_none()
    );
}

#[test]
fn parse_rejects_missing_field() {
    assert!(parse_event("{\"project\":\"a\",\"level\":\"b\",\"payload\":\"c\"}").is_none());
    assert!(parse_event("{\"level\":\"b\",\"payload\":\"c\",\"trace\":\"d\"}").is_none());
    assert!(parse_event("{}").is_none());
}

#[test]
fn parse_rejects_non_text_field_value() {
    assert!(parse_event("{\"project\":\"a\",\"level\":\"b\",\"payload\":5,\"trace\":\"d\"}").is_none());
    assert!(
        parse_event("{\"project\":\"a\",\"level\":\"b\",\"payload\":null,\"trace\":\"d\"}").is_none()
    );
    assert!(
        parse_event("{\"project\":[\"a\"],\"level\":\"b\",\"payload\":\"c\",\"trace\":\"d\"}").is_none()
    );
}

#[test]
fn parse_rejects_repeated_field() {
    let body = "{\"project\":\"a\",\"project\":\"z\",\"level\":\"b\",\"payload\":\"c\",\"trace\":\"d\"}";
    assert!(parse_event(body).is_none());
}

#[test]
fn parse_rejects_non_object_bodies() {
    assert!(parse_event("\"just a string\"").is_none());
    assert!(parse_event("[1,2,3]").is_none());
    assert!(parse_event("42").is_none());
    assert!(parse_event("").is_none());
    assert!(parse_event("   ").is_none());
}

#[test]
fn parse_rejects_trailing_text() {
    let body = "{\"project\":\"a\",\"level\":\"b\",\"payload\":\"c\",\"trace\":\"d\"} extra";
    assert!(parse_event(body).is_none());
}

#[test]
fn parse_rejects_malformed_syntax() {
    assert!(parse_event("{\"project\":\"a\"").is_none());
    assert!(parse_event("{\"project\" \"a\"}").is_none());
    assert!(parse_event("{project:\"a\"}").is_none());
    assert!(parse_event("{\"project\":\"a\",}").is_none());
}

#[test]
fn parse_rejects_bad_escapes() {
    assert!(parse_event("{\"project\":\"\\x\",\"level\":\"b\",\"payload\":\"c\",\"trace\":\"d\"}").is_none());
    assert!(
        parse_event("{\"project\":\"\\u12\",\"level\":\"b\",\"payload\":\"c\",\"trace\":\"d\"}").is_none()
    );
    assert!(
        parse_event("{\"project\":\"\\ud834\",\"level\":\"b\",\"payload\":\"c\",\"trace\":\"d\"}")
            .is_none()
    );
}

#[test]
fn parse_rejects_raw_control_character() {
    let body = "{\"project\":\"a\u{1}\",\"level\":\"b\",\"payload\":\"c\",\"trace\":\"d\"}";
    assert!(parse_event(body).is_none());
}

#[test]
fn round_trip_preserves_all_fields() {
    let cases = [
        ("app", "error", "boom", "at foo()"),
        ("", "", "", ""),
        ("with space", "tab\there", "quote\"back\\slash", "line\nbreak"),
        ("unicode \u{e9}\u{1f600}", "lvl", "ctrl\u{0}\u{1f}", "end"),
    ];
    for (p, l, pay, t) in cases.iter() {
        let ev = event(p, l, pay, t);
        let encoded = encode_event(&ev);
        let back = parse_event(&encoded).expect("canonical encoding parses");
        assert_fields(&back, p, l, pay, t);
    }
}
