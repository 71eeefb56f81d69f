use robin::{deserialize_job, serialize_job, EnqueuedJob, RetryCount};

fn job(name: &str, args: &str, rc: RetryCount) -> EnqueuedJob {
    EnqueuedJob::new(name.to_string(), args.to_string(), rc)
}

fn assert_round_trip(name: &str, args: &str, rc: RetryCount) {
    let original = job(name, args, rc);
    let text = serialize_job(&original);
    let back = deserialize_job(&text).expect("an encoded record must parse");
    assert_eq!(back.name(), name);
    assert_eq!(back.args(), args);
    assert_eq!(*back.retry_count(), rc);
}

#[test]
fn serialized_form_is_exact() {
    let j = job("send_email", "{\"to\":\"a@b.com\"}", RetryCount::NeverRetried);
    assert_eq!(
        serialize_job(&j),
        "{\"name\":\"send_email\",\"args\":\"{\\\"to\\\":\\\"a@b.com\\\"}\",\"retry_count\":\"NeverRetried\"}"
    );
}

#[test]
fn serialized_form_with_count_is_exact() {
    let j = job("resize_image", "", RetryCount::Count(3));
    assert_eq!(
        serialize_job(&j),
        "{\"name\":\"resize_image\",\"args\":\"\",\"retry_count\":{\"Count\":3}}"
    );
}

#[test]
fn round_trip_never_retried() {
    assert_round_trip("send_email", "{\"to\":\"a@b.com\"}", RetryCount::NeverRetried);
}

#[test]
fn round_trip_counted() {
    assert_round_trip("send_email", "{}", RetryCount::Count(7));
}

#[test]
fn round_trip_count_bounds() {
    assert_round_trip("j", "", RetryCount::Count(0));
    assert_round_trip("j", "", RetryCount::Count(u32::MAX));
}

#[test]
fn round_trip_empty_fields() {
    assert_round_trip("", "", RetryCount::NeverRetried);
}

#[test]
fn round_trip_quotes_and_backslashes() {
    assert_round_trip("weird \"name\"", "a \\ b \\\" c", RetryCount::Count(1));
    assert_round_trip("\\", "\"", RetryCount::NeverRetried);
    assert_round_trip("\\\\\"", "\"\"\\", RetryCount::Count(2));
}

#[test]
fn serialized_form_is_json() {
    let j = job("send_email", "{\"to\":\"a@b.com\"}", RetryCount::NeverRetried);
    let v: serde_json::Value = serde_json::from_str(&serialize_job(&j)).expect("valid JSON");
    assert_eq!(v.get("name").unwrap().as_str().unwrap(), "send_email");
    assert_eq!(v.get("args").unwrap().as_str().unwrap(), "{\"to\":\"a@b.com\"}");
    assert_eq!(
        v.get("retry_count").unwrap().as_str().unwrap(),
        "NeverRetried"
    );
}

#[test]
fn serialized_count_is_json() {
    let j = job("x", "y", RetryCount::Count(42));
    let v: serde_json::Value = serde_json::from_str(&serialize_job(&j)).expect("valid JSON");
    assert_eq!(
        v.get("retry_count").unwrap().get("Count").unwrap().as_u64().unwrap(),
        42
    );
}

#[test]
fn malformed_records_are_errors() {
    for text in [
        "",
        "{}",
        "not a record",
        "{\"name\":\"a\"}",
        "{\"name\":\"a\",\"args\":\"b\"}",
        "{\"name\":\"a\",\"args\":\"b\",\"retry_count\":\"Sometimes\"}",
        "{\"name\":\"a\",\"args\":\"b\",\"retry_count\":{\"Count\":}}",
        "{\"name\":\"a\",\"args\":\"b\",\"retry_count\":{\"Count\":12}",
        "{\"name\":\"a\",\"args\":\"b\",\"retry_count\":\"NeverRetried\"}trailing",
        "{\"name\":\"a\",\"args\":\"b\",\"retry_count\":\"NeverRetried\"",
        "{\"name\":\"unterminated",
    ] {
        let r = deserialize_job(text);
        assert!(
            matches!(r, Err(robin::Error::SerializationError(_))),
            "expected a serialization error for {:?}",
            text
        );
    }
}

#[test]
fn unknown_additional_fields_are_ignored() {
    let text = "{\"name\":\"a\",\"args\":\"b\",\"retry_count\":\"NeverRetried\",\"priority\":5}";
    let j = deserialize_job(text).expect("unknown fields are ignored on read");
    assert_eq!(j.name(), "a");
    assert_eq!(j.args(), "b");
    assert_eq!(*j.retry_count(), RetryCount::NeverRetried);

    let text = "{\"name\":\"a\",\"args\":\"b\",\"retry_count\":{\"Count\":9},\
                \"note\":\"x \\\" y\",\"flag\":true,\"other\":null,\"off\":false}";
    let j = deserialize_job(text).expect("several unknown fields are ignored");
    assert_eq!(*j.retry_count(), RetryCount::Count(9));
}

#[test]
fn fields_may_come_in_any_order() {
    let text = "{\"retry_count\":{\"Count\":4},\"args\":\"b\",\"name\":\"a\"}";
    let j = deserialize_job(text).expect("field order does not matter");
    assert_eq!(j.name(), "a");
    assert_eq!(j.args(), "b");
    assert_eq!(*j.retry_count(), RetryCount::Count(4));

    let text = "{\"args\":\"\",\"x\":null,\"name\":\"n\",\"retry_count\":\"NeverRetried\"}";
    let j = deserialize_job(text).expect("unknown fields between known ones are fine");
    assert_eq!(j.name(), "n");
    assert_eq!(*j.retry_count(), RetryCount::NeverRetried);
}

#[test]
fn duplicate_fields_are_errors() {
    for text in [
        "{\"name\":\"a\",\"name\":\"c\",\"args\":\"b\",\"retry_count\":\"NeverRetried\"}",
        "{\"name\":\"a\",\"args\":\"b\",\"args\":\"d\",\"retry_count\":\"NeverRetried\"}",
        "{\"name\":\"a\",\"args\":\"b\",\"retry_count\":\"NeverRetried\",\"retry_count\":\"NeverRetried\"}",
    ] {
        assert!(
            matches!(deserialize_job(text), Err(robin::Error::SerializationError(_))),
            "expected a duplicate-field error for {:?}",
            text
        );
    }
}

#[test]
fn missing_fields_are_errors() {
    for text in [
        "{}",
        "{\"name\":\"a\",\"args\":\"b\"}",
        "{\"args\":\"b\",\"retry_count\":\"NeverRetried\"}",
        "{\"name\":\"a\",\"retry_count\":\"NeverRetried\"}",
    ] {
        assert!(
            matches!(deserialize_job(text), Err(robin::Error::SerializationError(_))),
            "expected a missing-field error for {:?}",
            text
        );
    }
}

#[test]
fn malformed_additional_fields_are_errors() {
    for text in [
        "{\"name\":\"a\",\"args\":\"b\",\"retry_count\":\"NeverRetried\",\"k\":}",
        "{\"name\":\"a\",\"args\":\"b\",\"retry_count\":\"NeverRetried\",\"k\"true}",
        "{\"name\":\"a\",\"args\":\"b\",\"retry_count\":\"NeverRetried\",,}",
        "{\"name\":\"a\",\"args\":\"b\",\"retry_count\":\"NeverRetried\",\"k\":5",
    ] {
        assert!(
            matches!(deserialize_job(text), Err(robin::Error::SerializationError(_))),
            "expected a serialization error for {:?}",
            text
        );
    }
}

#[test]
fn round_trip_helper_returns_an_equal_record() {
    let j = job("n \\ q\"", "{\"a\":1}", RetryCount::Count(4));
    let back = robin::codec::round_trip(&j);
    assert_eq!(back.name(), j.name());
    assert_eq!(back.args(), j.args());
    assert_eq!(*back.retry_count(), *j.retry_count());
}

#[test]
fn count_overflow_is_an_error() {
    let text = "{\"name\":\"a\",\"args\":\"b\",\"retry_count\":{\"Count\":4294967296}}";
    assert!(matches!(
        deserialize_job(text),
        Err(robin::Error::SerializationError(_))
    ));
    let fits = "{\"name\":\"a\",\"args\":\"b\",\"retry_count\":{\"Count\":4294967295}}";
    let j = deserialize_job(fits).expect("largest count fits");
    assert_eq!(*j.retry_count(), RetryCount::Count(u32::MAX));
}
