use robin::redis_queue::{interpret_reply, ReplyItem};
use robin::{Error, JobQueue, NoJobDequeued, RedisConfig, RedisQueue, RetryCount};

#[test]
fn empty_reply_is_the_timeout_outcome() {
    let r = interpret_reply(Vec::new());
    assert!(matches!(r, Err(NoJobDequeued::BecauseTimeout)));
}

#[test]
fn one_element_reply_is_the_timeout_outcome() {
    let r = interpret_reply(vec![ReplyItem::Bytes(b"robin__main".to_vec())]);
    assert!(matches!(r, Err(NoJobDequeued::BecauseTimeout)));
}

#[test]
fn payload_reply_yields_the_encoded_job() {
    let payload = b"{\"name\":\"send_email\",\"args\":\"{}\",\"retry_count\":{\"Count\":2}}";
    let reply = vec![
        ReplyItem::Bytes(b"robin__main".to_vec()),
        ReplyItem::Bytes(payload.to_vec()),
    ];
    let j = interpret_reply(reply).expect("a well-formed payload yields the job");
    assert_eq!(j.name(), "send_email");
    assert_eq!(j.args(), "{}");
    assert_eq!(*j.retry_count(), RetryCount::Count(2));
}

#[test]
fn unexpected_reply_shape_is_an_unknown_backend_error() {
    let reply = vec![ReplyItem::Bytes(b"robin__main".to_vec()), ReplyItem::Other];
    let r = interpret_reply(reply);
    assert!(matches!(
        r,
        Err(NoJobDequeued::BecauseError(Error::UnknownRedisError(_)))
    ));
}

#[test]
fn invalid_utf8_payload_is_a_serialization_error() {
    let reply = vec![
        ReplyItem::Bytes(b"robin__main".to_vec()),
        ReplyItem::Bytes(vec![0xff, 0xfe, 0xfd]),
    ];
    let r = interpret_reply(reply);
    assert!(matches!(
        r,
        Err(NoJobDequeued::BecauseError(Error::SerializationError(_)))
    ));
}

#[test]
fn unparsable_payload_is_a_serialization_error() {
    let reply = vec![
        ReplyItem::Bytes(b"robin__main".to_vec()),
        ReplyItem::Bytes(b"not a job record".to_vec()),
    ];
    let r = interpret_reply(reply);
    assert!(matches!(
        r,
        Err(NoJobDequeued::BecauseError(Error::SerializationError(_)))
    ));
}

#[test]
fn construction_fails_on_a_malformed_address() {
    let config = RedisConfig {
        url: "this is not an address".to_string(),
        namespace: "robin_".to_string(),
    };
    let r = RedisQueue::new(&config);
    assert!(matches!(r, Err(Error::RedisError(_))));
}
