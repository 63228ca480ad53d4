use wicrs_api::error::Error;
use wicrs_api::frame::{decode_frame, HubUpdate, ServerFrame, UpdateKind};
use wicrs_api::id::Id;
use wicrs_api::wire::{decode_command, Command};

const HUB: u128 = 0x0123_4567_89ab_cdef_0123_4567_89ab_cdef;
const CHANNEL: u128 = 0xfedc_ba98_7654_3210_0000_0000_0000_0001;
const HUB_TEXT: &str = "01234567-89ab-cdef-0123-456789abcdef";
const CHANNEL_TEXT: &str = "fedcba98-7654-3210-0000-000000000001";

fn hub() -> Id {
    Id { value: HUB }
}

fn channel() -> Id {
    Id { value: CHANNEL }
}

#[test]
fn id_text_is_hyphenated_lowercase_hex() {
    assert_eq!(hub().to_text(), HUB_TEXT);
    assert_eq!(Id { value: 0 }.to_text(), "00000000-0000-0000-0000-000000000000");
    assert_eq!(
        Id { value: u128::MAX }.to_text(),
        "ffffffff-ffff-ffff-ffff-ffffffffffff"
    );
}

#[test]
fn id_parse_reads_canonical_text_only() {
    assert_eq!(Id::parse(HUB_TEXT), Some(hub()));
    assert_eq!(Id::parse(CHANNEL_TEXT), Some(channel()));
    assert_eq!(Id::parse("01234567-89AB-cdef-0123-456789abcdef"), None);
    assert_eq!(Id::parse("0123456789abcdef0123456789abcdef"), None);
    assert_eq!(Id::parse("01234567-89ab-cdef-0123-456789abcde"), None);
    assert_eq!(Id::parse("01234567+89ab-cdef-0123-456789abcdef"), None);
    assert_eq!(Id::parse(""), None);
}

#[test]
fn encode_subscribe_hub() {
    let c = Command::SubscribeHub { hub_id: hub() };
    assert_eq!(
        c.encode(),
        format!("{{\"SubscribeHub\":{{\"hub_id\":\"{}\"}}}}", HUB_TEXT)
    );
}

#[test]
fn encode_channel_commands() {
    let pairs = vec![
        ("UnsubscribeHub", Command::UnsubscribeHub { hub_id: hub() }),
        (
            "SubscribeChannel",
            Command::SubscribeChannel { hub_id: hub(), channel_id: channel() },
        ),
        (
            "UnsubscribeChannel",
            Command::UnsubscribeChannel { hub_id: hub(), channel_id: channel() },
        ),
        ("StartTyping", Command::StartTyping { hub_id: hub(), channel_id: channel() }),
        ("StopTyping", Command::StopTyping { hub_id: hub(), channel_id: channel() }),
    ];
    for (tag, c) in pairs {
        let expected = if tag == "UnsubscribeHub" {
            format!("{{\"{}\":{{\"hub_id\":\"{}\"}}}}", tag, HUB_TEXT)
        } else {
            format!(
                "{{\"{}\":{{\"hub_id\":\"{}\",\"channel_id\":\"{}\"}}}}",
                tag, HUB_TEXT, CHANNEL_TEXT
            )
        };
        assert_eq!(c.encode(), expected);
    }
}

#[test]
fn encode_send_message_escapes_like_json() {
    let text = "hi \"you\"\\\n\t\r\u{8}\u{c}\u{1}\u{1f} é ✓";
    let c = Command::SendMessage {
        hub_id: hub(),
        channel_id: channel(),
        message: text.to_string(),
    };
    let literal = serde_json::to_string(text).unwrap();
    assert_eq!(
        c.encode(),
        format!(
            "{{\"SendMessage\":{{\"hub_id\":\"{}\",\"channel_id\":\"{}\",\"message\":{}}}}}",
            HUB_TEXT, CHANNEL_TEXT, literal
        )
    );
    assert!(c.encode().contains("\\u0001"));
    assert!(c.encode().contains("\\u001f"));
}

#[test]
fn encoded_text_is_json_that_serde_reads() {
    let c = Command::SendMessage {
        hub_id: hub(),
        channel_id: channel(),
        message: "line\nnext \"quoted\"".to_string(),
    };
    let v: serde_json::Value = serde_json::from_str(&c.encode()).unwrap();
    let body = v.get("SendMessage").unwrap();
    assert_eq!(body.get("hub_id").unwrap().as_str(), Some(HUB_TEXT));
    assert_eq!(body.get("message").unwrap().as_str(), Some("line\nnext \"quoted\""));
}

#[test]
fn command_round_trip_every_kind() {
    let all = vec![
        Command::SubscribeHub { hub_id: hub() },
        Command::UnsubscribeHub { hub_id: hub() },
        Command::SubscribeChannel { hub_id: hub(), channel_id: channel() },
        Command::UnsubscribeChannel { hub_id: hub(), channel_id: channel() },
        Command::StartTyping { hub_id: hub(), channel_id: channel() },
        Command::StopTyping { hub_id: hub(), channel_id: channel() },
        Command::SendMessage { hub_id: hub(), channel_id: channel(), message: "hi".to_string() },
        Command::SendMessage {
            hub_id: channel(),
            channel_id: hub(),
            message: "\"\\\u{0}\u{7f}\n ünïcödé".to_string(),
        },
        Command::SendMessage { hub_id: hub(), channel_id: channel(), message: String::new() },
    ];
    for c in all {
        assert_eq!(decode_command(&c.encode()), Ok(c.clone()));
    }
}

#[test]
fn decode_command_refuses_other_texts() {
    let good = Command::SubscribeHub { hub_id: hub() }.encode();
    assert_eq!(decode_command(&good[..good.len() - 1]), Err(Error::Protocol));
    assert_eq!(decode_command(&format!("{} ", good)), Err(Error::Protocol));
    assert_eq!(decode_command(""), Err(Error::Protocol));
    assert_eq!(
        decode_command(&format!("{{\"SubscribeHub\": {{\"hub_id\":\"{}\"}}}}", HUB_TEXT)),
        Err(Error::Protocol)
    );
    assert_eq!(
        decode_command(&format!("{{\"Subscribe\":{{\"hub_id\":\"{}\"}}}}", HUB_TEXT)),
        Err(Error::Protocol)
    );
    assert_eq!(
        decode_command(&format!("{{\"SubscribeChannel\":{{\"hub_id\":\"{}\"}}}}", HUB_TEXT)),
        Err(Error::Protocol)
    );
    assert_eq!(
        decode_command(&format!(
            "{{\"SendMessage\":{{\"hub_id\":\"{}\",\"channel_id\":\"{}\",\"message\":\"\\u0008\"}}}}",
            HUB_TEXT, CHANNEL_TEXT
        )),
        Err(Error::Protocol)
    );
}

#[test]
fn decode_success_and_error_frames() {
    assert_eq!(decode_frame("\"Success\""), Ok(ServerFrame::Success));
    assert_eq!(
        decode_frame("{\"Error\":\"NotFound\"}"),
        Ok(ServerFrame::Error("NotFound".to_string()))
    );
    assert_eq!(
        decode_frame("{\"Error\":\"a \\\"b\\\"\\n\"}"),
        Ok(ServerFrame::Error("a \"b\"\n".to_string()))
    );
}

#[test]
fn decode_chat_message_frame() {
    let sender = Id { value: 7 };
    let message_id = Id { value: 9 };
    let text = format!(
        "{{\"ChatMessage\":{{\"sender_id\":\"{}\",\"hub_id\":\"{}\",\"channel_id\":\"{}\",\"message_id\":\"{}\",\"message\":{}}}}}",
        sender.to_text(),
        HUB_TEXT,
        CHANNEL_TEXT,
        message_id.to_text(),
        serde_json::to_string("Hello world!\u{1}").unwrap()
    );
    assert_eq!(
        decode_frame(&text),
        Ok(ServerFrame::ChatMessage {
            sender_id: sender,
            hub_id: hub(),
            channel_id: channel(),
            message_id,
            message: "Hello world!\u{1}".to_string(),
        })
    );
}

#[test]
fn decode_hub_updated_frames() {
    let user = Id { value: 42 };
    let left = format!(
        "{{\"HubUpdated\":{{\"hub_id\":\"{}\",\"update_type\":{{\"UserLeft\":\"{}\"}}}}}}",
        HUB_TEXT,
        user.to_text()
    );
    assert_eq!(
        decode_frame(&left),
        Ok(ServerFrame::HubUpdated {
            hub_id: hub(),
            update: HubUpdate { kind: UpdateKind::UserLeft, subject: Some(user), channel: None },
        })
    );
    let deleted = format!(
        "{{\"HubUpdated\":{{\"hub_id\":\"{}\",\"update_type\":\"HubDeleted\"}}}}",
        HUB_TEXT
    );
    assert_eq!(
        decode_frame(&deleted),
        Ok(ServerFrame::HubUpdated {
            hub_id: hub(),
            update: HubUpdate { kind: UpdateKind::HubDeleted, subject: None, channel: None },
        })
    );
    let created = format!(
        "{{\"HubUpdated\":{{\"hub_id\":\"{}\",\"update_type\":{{\"ChannelCreated\":\"{}\"}}}}}}",
        HUB_TEXT, CHANNEL_TEXT
    );
    assert_eq!(
        decode_frame(&created),
        Ok(ServerFrame::HubUpdated {
            hub_id: hub(),
            update: HubUpdate {
                kind: UpdateKind::ChannelCreated,
                subject: Some(channel()),
                channel: None,
            },
        })
    );
}

#[test]
fn decode_frame_refuses_other_texts() {
    assert_eq!(decode_frame(""), Err(Error::Protocol));
    assert_eq!(decode_frame("Success"), Err(Error::Protocol));
    assert_eq!(decode_frame("\"Failure\""), Err(Error::Protocol));
    assert_eq!(decode_frame("{\"Error\":\"x\"} "), Err(Error::Protocol));
    assert_eq!(decode_frame("{\"Success\":\"x\"}"), Err(Error::Protocol));
    let unit_with_subject = format!(
        "{{\"HubUpdated\":{{\"hub_id\":\"{}\",\"update_type\":{{\"HubDeleted\":\"{}\"}}}}}}",
        HUB_TEXT, CHANNEL_TEXT
    );
    assert_eq!(decode_frame(&unit_with_subject), Err(Error::Protocol));
    let subject_missing = format!(
        "{{\"HubUpdated\":{{\"hub_id\":\"{}\",\"update_type\":\"UserLeft\"}}}}",
        HUB_TEXT
    );
    assert_eq!(decode_frame(&subject_missing), Err(Error::Protocol));
}

#[test]
fn decode_channel_permission_change() {
    let user = Id { value: 42 };
    let text = format!(
        "{{\"HubUpdated\":{{\"hub_id\":\"{}\",\"update_type\":{{\"UserChannelPermissionChanged\":[\"{}\",\"{}\"]}}}}}}",
        HUB_TEXT,
        user.to_text(),
        CHANNEL_TEXT
    );
    assert_eq!(
        decode_frame(&text),
        Ok(ServerFrame::HubUpdated {
            hub_id: hub(),
            update: HubUpdate {
                kind: UpdateKind::UserChannelPermissionChanged,
                subject: Some(user),
                channel: Some(channel()),
            },
        })
    );
    let single = format!(
        "{{\"HubUpdated\":{{\"hub_id\":\"{}\",\"update_type\":{{\"UserChannelPermissionChanged\":\"{}\"}}}}}}",
        HUB_TEXT,
        user.to_text()
    );
    assert_eq!(decode_frame(&single), Err(Error::Protocol));
    let pair_for_single = format!(
        "{{\"HubUpdated\":{{\"hub_id\":\"{}\",\"update_type\":{{\"UserLeft\":[\"{}\",\"{}\"]}}}}}}",
        HUB_TEXT,
        user.to_text(),
        CHANNEL_TEXT
    );
    assert_eq!(decode_frame(&pair_for_single), Err(Error::Protocol));
}
