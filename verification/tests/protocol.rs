use webrpc::protocol::{decode, encode, DecodeError, Message};
use webrpc::services::{MusicServiceInfo, Service};

fn update_msg(song: &str, artist: &str, paused: bool, id: u16) -> Message {
    Message::Update {
        service: Service::YouTubeMusic(MusicServiceInfo {
            song: song.to_string(),
            artist: artist.to_string(),
            paused,
        }),
        id,
    }
}

#[test]
fn round_trip_hello() {
    let m = Message::Hello {
        msg: "hello from webrpc :D".to_string(),
        time: 1700000000,
        app_id: 1238876651492868157,
    };
    assert_eq!(decode(&encode(&m)), Ok(m));
}

#[test]
fn round_trip_update() {
    let m = update_msg("Song A", "Artist A", false, 1);
    assert_eq!(decode(&encode(&m)), Ok(m));
    let m = update_msg("Song B", "Artist B", true, 65535);
    assert_eq!(decode(&encode(&m)), Ok(m));
}

#[test]
fn round_trip_clear_and_ack() {
    let m = Message::Clear { id: 0 };
    assert_eq!(decode(&encode(&m)), Ok(m));
    let m = Message::Ack { id: 65535 };
    assert_eq!(decode(&encode(&m)), Ok(m));
}

#[test]
fn round_trip_escapes_and_empty() {
    let m = update_msg("a \"quoted\" song \\ with backslash", "", false, 7);
    assert_eq!(decode(&encode(&m)), Ok(m));
    let m = update_msg("", "", true, 0);
    assert_eq!(decode(&encode(&m)), Ok(m));
    let m = Message::Hello { msg: "".to_string(), time: 0, app_id: 0 };
    assert_eq!(decode(&encode(&m)), Ok(m));
}

#[test]
fn round_trip_unicode() {
    let m = update_msg("Lieblingsst\u{fc}ck \u{1f3b5}", "K\u{f6}nig", false, 3);
    assert_eq!(decode(&encode(&m)), Ok(m));
}

#[test]
fn encode_ack_exact() {
    assert_eq!(encode(&Message::Ack { id: 1 }), "{\"type\":\"ack\",\"id\":1}");
    assert_eq!(encode(&Message::Ack { id: 2 }), "{\"type\":\"ack\",\"id\":2}");
}

#[test]
fn encode_hello_exact() {
    let m = Message::Hello { msg: "hi".to_string(), time: 12, app_id: 34 };
    assert_eq!(encode(&m), "{\"type\":\"hello\",\"msg\":\"hi\",\"time\":12,\"appId\":34}");
}

#[test]
fn encode_update_exact() {
    let m = update_msg("Song A", "Artist A", false, 1);
    assert_eq!(
        encode(&m),
        "{\"type\":\"update\",\"service\":{\"youTubeMusic\":{\"song\":\"Song A\",\
         \"artist\":\"Artist A\",\"paused\":false}},\"id\":1}"
    );
}

#[test]
fn decode_update_scenario() {
    let s = "{\"type\":\"update\",\"service\":{\"youTubeMusic\":{\"song\":\"Song A\",\
             \"artist\":\"Artist A\",\"paused\":false}},\"id\":1}";
    assert_eq!(decode(s), Ok(update_msg("Song A", "Artist A", false, 1)));
}

#[test]
fn decode_clear_scenario() {
    assert_eq!(decode("{\"type\":\"clear\",\"id\":2}"), Ok(Message::Clear { id: 2 }));
}

#[test]
fn decode_rejects_malformed_text() {
    assert_eq!(decode("not json"), Err(DecodeError::Syntax));
    assert_eq!(decode(""), Err(DecodeError::Syntax));
    assert_eq!(decode("{}"), Err(DecodeError::MissingField));
}

#[test]
fn decode_rejects_unknown_tag() {
    assert_eq!(decode("{\"type\":\"bogus\",\"id\":1}"), Err(DecodeError::UnknownTag));
}

#[test]
fn decode_rejects_missing_field() {
    assert_eq!(decode("{\"type\":\"clear\"}"), Err(DecodeError::MissingField));
    assert_eq!(decode("{\"type\":\"ack\"}"), Err(DecodeError::MissingField));
}

#[test]
fn decode_rejects_type_mismatch() {
    assert_eq!(decode("{\"type\":\"clear\",\"id\":\"x\"}"), Err(DecodeError::TypeMismatch));
    assert_eq!(decode("{\"type\":\"clear\",\"id\":65536}"), Err(DecodeError::TypeMismatch));
    assert_eq!(decode("{\"type\":\"clear\",\"id\":01}"), Err(DecodeError::TypeMismatch));
    assert_eq!(
        decode("{\"type\":\"hello\",\"msg\":\"m\",\"time\":18446744073709551616,\"appId\":1}"),
        Err(DecodeError::TypeMismatch)
    );
}

#[test]
fn decode_id_bounds() {
    assert_eq!(decode("{\"type\":\"clear\",\"id\":65535}"), Ok(Message::Clear { id: 65535 }));
    assert_eq!(decode("{\"type\":\"clear\",\"id\":0}"), Ok(Message::Clear { id: 0 }));
}

#[test]
fn decode_rejects_trailing_garbage() {
    assert_eq!(decode("{\"type\":\"clear\",\"id\":2}x"), Err(DecodeError::Syntax));
    assert_eq!(decode("{\"type\":\"clear\",\"id\":2}}"), Err(DecodeError::Syntax));
}

#[test]
fn decode_rejects_unterminated_string() {
    assert_eq!(
        decode("{\"type\":\"update\",\"service\":{\"youTubeMusic\":{\"song\":\"oops"),
        Err(DecodeError::Syntax)
    );
}

#[test]
fn decode_tolerates_whitespace() {
    assert_eq!(
        decode("{\"type\":\"clear\", \"id\":2}"),
        Ok(Message::Clear { id: 2 })
    );
    assert_eq!(
        decode(" { \"type\" : \"clear\" ,\n\t\"id\" : 2 } "),
        Ok(Message::Clear { id: 2 })
    );
}

#[test]
fn decode_tolerates_member_order() {
    assert_eq!(
        decode("{\"id\":2,\"type\":\"clear\"}"),
        Ok(Message::Clear { id: 2 })
    );
    let s = "{\"id\":1,\"service\":{\"youTubeMusic\":{\"paused\":false,\"song\":\"Song A\",\
             \"artist\":\"Artist A\"}},\"type\":\"update\"}";
    assert_eq!(decode(s), Ok(update_msg("Song A", "Artist A", false, 1)));
}

#[test]
fn decode_skips_unknown_members() {
    let s = "{\"type\":\"clear\",\"extra\":[1,{\"a\":null},\"x\",-2.5e3,true],\"id\":2}";
    assert_eq!(decode(s), Ok(Message::Clear { id: 2 }));
}

#[test]
fn decode_rejects_duplicate_member() {
    assert_eq!(
        decode("{\"type\":\"clear\",\"id\":1,\"id\":2}"),
        Err(DecodeError::Syntax)
    );
}

#[test]
fn decode_rejects_trailing_comma() {
    assert_eq!(decode("{\"type\":\"clear\",\"id\":2,}"), Err(DecodeError::Syntax));
}

#[test]
fn decode_rejects_missing_tag() {
    assert_eq!(decode("{\"id\":2}"), Err(DecodeError::MissingField));
}

#[test]
fn decode_full_escapes() {
    let s = "{\"type\":\"update\",\"service\":{\"youTubeMusic\":{\"song\":\"a\\nb\\t\\u0041\",\
             \"artist\":\"\\ud83c\\udfb5 tune\",\"paused\":false}},\"id\":1}";
    assert_eq!(
        decode(s),
        Ok(update_msg("a\nb\tA", "\u{1f3b5} tune", false, 1))
    );
}

#[test]
fn decode_rejects_lone_surrogate_and_raw_control() {
    assert_eq!(
        decode("{\"type\":\"update\",\"service\":{\"youTubeMusic\":{\"song\":\"\\ud83c\",\
                \"artist\":\"a\",\"paused\":false}},\"id\":1}"),
        Err(DecodeError::Syntax)
    );
    assert_eq!(
        decode("{\"type\":\"update\",\"service\":{\"youTubeMusic\":{\"song\":\"a\nb\",\
                \"artist\":\"a\",\"paused\":false}},\"id\":1}"),
        Err(DecodeError::Syntax)
    );
}

#[test]
fn decode_rejects_fractional_id() {
    assert_eq!(decode("{\"type\":\"clear\",\"id\":1.5}"), Err(DecodeError::TypeMismatch));
    assert_eq!(decode("{\"type\":\"clear\",\"id\":-1}"), Err(DecodeError::TypeMismatch));
}

#[test]
fn round_trip_control_characters() {
    let m = update_msg("line1\nline2\tend\u{1}", "a\rb\u{8}c\u{c}d", true, 9);
    assert_eq!(decode(&encode(&m)), Ok(m));
}

#[test]
fn encode_escapes_control_characters() {
    let m = update_msg("a\nb", "c\u{1}d", false, 3);
    let s = encode(&m);
    assert!(s.contains("a\\nb"));
    assert!(s.contains("c\\u0001d"));
}
