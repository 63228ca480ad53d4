use wicrs_api::dispatch::{Correlator, Dispatch, LoopState, Step};
use wicrs_api::error::{Error, StopReason};
use wicrs_api::frame::{HubUpdate, ServerFrame, UpdateKind};
use wicrs_api::id::Id;
use wicrs_api::wire::Command;

fn running() -> Correlator {
    let mut c = Correlator::new();
    assert_eq!(c.start(), Ok(()));
    c
}

fn chat(text: &str) -> ServerFrame {
    ServerFrame::ChatMessage {
        sender_id: Id { value: 5 },
        hub_id: Id { value: 1 },
        channel_id: Id { value: 2 },
        message_id: Id { value: 3 },
        message: text.to_string(),
    }
}

fn user_left(user: Id) -> ServerFrame {
    ServerFrame::HubUpdated {
        hub_id: Id { value: 1 },
        update: HubUpdate { kind: UpdateKind::UserLeft, subject: Some(user), channel: None },
    }
}

#[test]
fn commands_are_fire_and_forget_while_no_loop_runs() {
    let mut c = Correlator::new();
    assert_eq!(c.state(), LoopState::Idle);
    assert!(!c.command_sent());
    assert!(!c.is_awaiting());
    assert_eq!(c.take_outcome(), None);
}

#[test]
fn reply_to_a_command_sent_before_the_loop_stops_it() {
    let mut c = Correlator::new();
    assert!(!c.command_sent());
    assert_eq!(c.start(), Ok(()));
    assert!(matches!(c.on_frame(chat("first")), Dispatch::Handle(_)));
    assert!(matches!(
        c.on_frame(ServerFrame::Error("Late".to_string())),
        Dispatch::Stop(Error::Desynchronized)
    ));
    assert_eq!(c.state(), LoopState::Stopped(StopReason::Desynchronized));
    assert_eq!(c.take_outcome(), None);
    assert!(!c.is_running());
}

#[test]
fn direct_reads_only_while_no_loop_runs() {
    let mut c = Correlator::new();
    assert_eq!(c.read_directly(), Ok(()));
    assert_eq!(c.start(), Ok(()));
    assert_eq!(c.read_directly(), Err(Error::LoopRunning));
    c.stop(StopReason::HandlerStopped);
    assert_eq!(c.read_directly(), Ok(()));
}

#[test]
fn withdrawn_command_leaves_no_trace() {
    let mut c = running();
    assert!(c.command_sent());
    c.withdraw();
    assert!(!c.is_awaiting());
    assert_eq!(c.take_outcome(), None);
    assert!(matches!(
        c.on_frame(ServerFrame::Success),
        Dispatch::Stop(Error::Desynchronized)
    ));
}

#[test]
fn serialized_callers_on_one_session_get_their_own_outcomes() {
    let hub = Id { value: 0x4 };
    let channel = Id { value: 0x5 };
    let mut s = running();
    let a = Command::SendMessage { hub_id: hub, channel_id: channel, message: "hi".to_string() };
    let b = Command::SubscribeChannel { hub_id: hub, channel_id: channel };
    assert!(a.encode().contains("\"message\":\"hi\""));
    assert!(b.encode().starts_with("{\"SubscribeChannel\""));
    // A holds the session's issuing turn first, then B.
    assert!(s.command_sent());
    assert!(matches!(s.on_frame(chat("between")), Dispatch::Handle(_)));
    assert!(matches!(s.on_text("{\"Error\":\"Muted\"}"), Dispatch::Delivered));
    let outcome_a = s.take_outcome();
    assert!(s.command_sent());
    assert!(matches!(s.on_text("\"Success\""), Dispatch::Delivered));
    let outcome_b = s.take_outcome();
    assert_eq!(outcome_a, Some(Err(Error::Domain("Muted".to_string()))));
    assert_eq!(outcome_b, Some(Ok(())));
    assert!(s.is_running());
}

#[test]
fn only_one_loop_runs_at_a_time() {
    let mut c = running();
    assert!(c.is_running());
    assert_eq!(c.start(), Err(Error::LoopRunning));
    assert!(c.is_running());
}

#[test]
fn outcomes_come_in_issuance_order() {
    let mut c = running();
    let replies = vec![
        ServerFrame::Success,
        ServerFrame::Error("NotFound".to_string()),
        ServerFrame::Success,
        ServerFrame::Error("Muted".to_string()),
    ];
    let expected = vec![
        Ok(()),
        Err(Error::Domain("NotFound".to_string())),
        Ok(()),
        Err(Error::Domain("Muted".to_string())),
    ];
    for (i, reply) in replies.into_iter().enumerate() {
        assert!(c.command_sent());
        for k in 0..i {
            let e = chat(&format!("event {}", k));
            assert!(matches!(c.on_frame(e.clone()), Dispatch::Handle(f) if f == e));
            assert_eq!(c.take_outcome(), None);
        }
        assert!(matches!(c.on_frame(reply), Dispatch::Delivered));
        assert_eq!(c.take_outcome(), Some(expected[i].clone()));
        assert!(!c.is_awaiting());
    }
    assert!(c.is_running());
}

#[test]
fn stop_while_awaiting_gives_loop_closed() {
    let mut c = running();
    assert!(c.command_sent());
    assert_eq!(c.take_outcome(), None);
    c.stop(StopReason::ReceiveClosed);
    assert_eq!(
        c.take_outcome(),
        Some(Err(Error::LoopClosed(StopReason::ReceiveClosed)))
    );
    assert!(!c.is_awaiting());

    let mut c = running();
    assert!(c.command_sent());
    assert_eq!(c.on_receive_end(StopReason::Transport), Error::Transport);
    assert_eq!(c.take_outcome(), Some(Err(Error::LoopClosed(StopReason::Transport))));

    let mut c = running();
    assert!(c.command_sent());
    assert!(matches!(c.after_event(Some(1u8)), Step::Finish(Ok(1))));
    assert_eq!(
        c.take_outcome(),
        Some(Err(Error::LoopClosed(StopReason::HandlerStopped)))
    );
}

#[test]
fn push_event_does_not_answer_a_command() {
    let mut c = running();
    assert!(c.command_sent());
    let event = chat("hello");
    match c.on_frame(event.clone()) {
        Dispatch::Handle(f) => assert_eq!(f, event),
        other => panic!("unexpected {:?}", other),
    }
    assert_eq!(c.take_outcome(), None);
    assert!(c.is_awaiting());
    assert!(matches!(c.on_frame(ServerFrame::Success), Dispatch::Delivered));
    assert_eq!(c.take_outcome(), Some(Ok(())));
}

#[test]
fn handler_stop_on_own_departure_ends_loop_with_its_value() {
    let me = Id { value: 77 };
    let mut c = running();
    let handler = |f: &ServerFrame| -> Option<&'static str> {
        match f {
            ServerFrame::HubUpdated {
                update: HubUpdate { kind: UpdateKind::UserLeft, subject: Some(u), .. },
                ..
            } if *u == me => Some("left"),
            _ => None,
        }
    };
    let frames = vec![chat("a"), user_left(Id { value: 78 }), user_left(me), chat("never read")];
    let mut read = 0usize;
    let mut result = None;
    for f in frames {
        if !c.is_running() {
            break;
        }
        read += 1;
        if let Dispatch::Handle(e) = c.on_frame(f) {
            match c.after_event(handler(&e)) {
                Step::ReadNext => {}
                Step::Finish(r) => {
                    result = Some(r);
                }
            }
        }
    }
    assert_eq!(result, Some(Ok("left")));
    assert_eq!(read, 3);
    assert_eq!(c.state(), LoopState::Stopped(StopReason::HandlerStopped));
}

#[test]
fn two_clients_get_their_own_outcomes() {
    let hub = Id { value: 0x4 };
    let channel = Id { value: 0x5 };
    // A subscribes to the hub.
    let mut a = running();
    let sub = Command::SubscribeHub { hub_id: hub }.encode();
    assert!(sub.starts_with("{\"SubscribeHub\""));
    assert!(a.command_sent());
    assert!(matches!(a.on_text("\"Success\""), Dispatch::Delivered));
    assert_eq!(a.take_outcome(), Some(Ok(())));
    // A sends a message while B subscribes to a channel on its own session.
    let mut b = running();
    let send = Command::SendMessage { hub_id: hub, channel_id: channel, message: "hi".to_string() };
    let subscribe = Command::SubscribeChannel { hub_id: hub, channel_id: channel };
    assert!(send.encode().contains("\"message\":\"hi\""));
    assert!(subscribe.encode().starts_with("{\"SubscribeChannel\""));
    assert!(a.command_sent());
    assert!(b.command_sent());
    assert!(matches!(b.on_text("{\"Error\":\"NotMember\"}"), Dispatch::Delivered));
    assert!(matches!(a.on_text("\"Success\""), Dispatch::Delivered));
    assert_eq!(a.take_outcome(), Some(Ok(())));
    assert_eq!(b.take_outcome(), Some(Err(Error::Domain("NotMember".to_string()))));
}

#[test]
fn reply_without_awaiting_issuer_desynchronizes() {
    let mut c = running();
    assert!(matches!(
        c.on_frame(ServerFrame::Success),
        Dispatch::Stop(Error::Desynchronized)
    ));
    assert_eq!(c.state(), LoopState::Stopped(StopReason::Desynchronized));

    let mut c = running();
    assert!(c.command_sent());
    assert!(matches!(c.on_frame(ServerFrame::Success), Dispatch::Delivered));
    assert!(matches!(
        c.on_frame(ServerFrame::Error("x".to_string())),
        Dispatch::Stop(Error::Desynchronized)
    ));
    assert_eq!(c.take_outcome(), Some(Ok(())));
}

#[test]
fn undecodable_frame_stops_the_loop() {
    let mut c = running();
    assert!(c.command_sent());
    assert!(matches!(c.on_text("{\"Nope\":1}"), Dispatch::Stop(Error::Protocol)));
    assert_eq!(c.state(), LoopState::Stopped(StopReason::Protocol));
    assert_eq!(c.take_outcome(), Some(Err(Error::LoopClosed(StopReason::Protocol))));
}

#[test]
fn loop_can_start_again_after_it_stopped() {
    let mut c = running();
    assert_eq!(c.on_receive_end(StopReason::ReceiveClosed), Error::WsClosed);
    assert!(!c.is_running());
    assert_eq!(c.start(), Ok(()));
    assert!(c.is_running());
}
