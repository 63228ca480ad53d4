//! Frames that the server sends: replies to commands and pushed events.
use crate::error::Error;
use crate::id::{id_text, Id};
use crate::text::{chars_of, eq_lit, lemma_quoted_unique, quoted, stands_at, take_lit, take_string};
use crate::wire::{
    channel_field, close_two, hub_field, lemma_stands_concat, lemma_stands_whole,
    lemma_whole_stands, message_field, qid, take_char, take_id, take_text,
};
use vstd::prelude::*;

verus! {

/// What changed in a hub.
#[derive(Clone, Copy, Debug, PartialEq, Eq, Structural)]
pub enum UpdateKind {
    HubDeleted,
    HubRenamed,
    HubDescriptionUpdated,
    UserJoined,
    UserLeft,
    UserBanned,
    UserUnbanned,
    UserMuted,
    UserUnmuted,
    UserKicked,
    UserHubPermissionChanged,
    UserChannelPermissionChanged,
    MemberNicknameChanged,
    ChannelCreated,
    ChannelDeleted,
    ChannelRenamed,
    ChannelDescriptionUpdated,
}

/// Whether a change names the user or channel that it is about.
pub open spec fn kind_has_subject(k: UpdateKind) -> bool {
    !(k == UpdateKind::HubDeleted || k == UpdateKind::HubRenamed || k
        == UpdateKind::HubDescriptionUpdated)
}

/// Whether a change names a channel besides its user.
pub open spec fn kind_has_channel(k: UpdateKind) -> bool {
    k == UpdateKind::UserChannelPermissionChanged
}

/// A change in a hub, with the user or channel that it is about where its
/// kind names one, and the channel where its kind names one besides a user.
#[derive(Clone, Copy, Debug, PartialEq, Eq, Structural)]
pub struct HubUpdate {
    pub kind: UpdateKind,
    pub subject: Option<Id>,
    pub channel: Option<Id>,
}

impl HubUpdate {
    pub open spec fn wf(self) -> bool {
        &&& self.subject is Some == kind_has_subject(self.kind)
        &&& self.channel is Some == kind_has_channel(self.kind)
    }
}

pub open spec fn update_tag(k: UpdateKind) -> Seq<char> {
    match k {
        UpdateKind::HubDeleted => "HubDeleted"@,
        UpdateKind::HubRenamed => "HubRenamed"@,
        UpdateKind::HubDescriptionUpdated => "HubDescriptionUpdated"@,
        UpdateKind::UserJoined => "UserJoined"@,
        UpdateKind::UserLeft => "UserLeft"@,
        UpdateKind::UserBanned => "UserBanned"@,
        UpdateKind::UserUnbanned => "UserUnbanned"@,
        UpdateKind::UserMuted => "UserMuted"@,
        UpdateKind::UserUnmuted => "UserUnmuted"@,
        UpdateKind::UserKicked => "UserKicked"@,
        UpdateKind::UserHubPermissionChanged => "UserHubPermissionChanged"@,
        UpdateKind::UserChannelPermissionChanged => "UserChannelPermissionChanged"@,
        UpdateKind::MemberNicknameChanged => "MemberNicknameChanged"@,
        UpdateKind::ChannelCreated => "ChannelCreated"@,
        UpdateKind::ChannelDeleted => "ChannelDeleted"@,
        UpdateKind::ChannelRenamed => "ChannelRenamed"@,
        UpdateKind::ChannelDescriptionUpdated => "ChannelDescriptionUpdated"@,
    }
}

/// What follows the tag of a change that names a subject: `"<id>"`, or
/// `["<id>","<id>"]` where a channel follows the subject.
pub open spec fn subject_body(v: u128, channel: Option<Id>) -> Seq<char> {
    match channel {
        None => qid(v),
        Some(c) => seq!['['] + qid(v) + seq![','] + qid(c.value) + seq![']'],
    }
}

/// The wire text of a change: `"Kind"`, or `{"Kind":<body>}` where the kind
/// names a subject.
pub open spec fn update_text(u: HubUpdate) -> Seq<char> {
    match u.subject {
        None => quoted(update_tag(u.kind)),
        Some(id) => seq!['{'] + quoted(update_tag(u.kind)) + seq![':'] + subject_body(
            id.value,
            u.channel,
        ) + seq!['}'],
    }
}

/// Different kinds of change have different tags.
pub proof fn lemma_update_tags_distinct(a: UpdateKind, b: UpdateKind)
    requires
        update_tag(a) == update_tag(b),
    ensures
        a == b,
{
    reveal_strlit("HubDeleted");
    reveal_strlit("HubRenamed");
    reveal_strlit("HubDescriptionUpdated");
    reveal_strlit("UserJoined");
    reveal_strlit("UserLeft");
    reveal_strlit("UserBanned");
    reveal_strlit("UserUnbanned");
    reveal_strlit("UserMuted");
    reveal_strlit("UserUnmuted");
    reveal_strlit("UserKicked");
    reveal_strlit("UserHubPermissionChanged");
    reveal_strlit("UserChannelPermissionChanged");
    reveal_strlit("MemberNicknameChanged");
    reveal_strlit("ChannelCreated");
    reveal_strlit("ChannelDeleted");
    reveal_strlit("ChannelRenamed");
    reveal_strlit("ChannelDescriptionUpdated");
    assert("HubDeleted"@.len() == 10);
    assert("HubRenamed"@.len() == 10);
    assert("HubDescriptionUpdated"@.len() == 21);
    assert("UserJoined"@.len() == 10);
    assert("UserLeft"@.len() == 8);
    assert("UserBanned"@.len() == 10);
    assert("UserUnbanned"@.len() == 12);
    assert("UserMuted"@.len() == 9);
    assert("UserUnmuted"@.len() == 11);
    assert("UserKicked"@.len() == 10);
    assert("UserHubPermissionChanged"@.len() == 24);
    assert("UserChannelPermissionChanged"@.len() == 28);
    assert("MemberNicknameChanged"@.len() == 21);
    assert("ChannelCreated"@.len() == 14);
    assert("ChannelDeleted"@.len() == 14);
    assert("ChannelRenamed"@.len() == 14);
    assert("ChannelDescriptionUpdated"@.len() == 25);
    assert("HubDeleted"@[0] == 'H' && "HubDeleted"@[3] == 'D');
    assert("HubRenamed"@[0] == 'H' && "HubRenamed"@[3] == 'R');
    assert("UserJoined"@[0] == 'U' && "UserJoined"@[4] == 'J');
    assert("UserBanned"@[0] == 'U' && "UserBanned"@[4] == 'B');
    assert("UserKicked"@[0] == 'U' && "UserKicked"@[4] == 'K');
    assert("HubDescriptionUpdated"@[0] == 'H');
    assert("MemberNicknameChanged"@[0] == 'M');
    assert("ChannelCreated"@[7] == 'C');
    assert("ChannelDeleted"@[7] == 'D');
    assert("ChannelRenamed"@[7] == 'R');
}

fn update_kind_of_tag(tag: &Vec<char>) -> (r: Option<UpdateKind>)
    ensures
        r matches Some(k) ==> update_tag(k) == tag@,
        forall|k: UpdateKind| #[trigger] update_tag(k) == tag@ ==> r == Some(k),
{
    let r = if eq_lit(tag, "HubDeleted") {
        Some(UpdateKind::HubDeleted)
    } else if eq_lit(tag, "HubRenamed") {
        Some(UpdateKind::HubRenamed)
    } else if eq_lit(tag, "HubDescriptionUpdated") {
        Some(UpdateKind::HubDescriptionUpdated)
    } else if eq_lit(tag, "UserJoined") {
        Some(UpdateKind::UserJoined)
    } else if eq_lit(tag, "UserLeft") {
        Some(UpdateKind::UserLeft)
    } else if eq_lit(tag, "UserBanned") {
        Some(UpdateKind::UserBanned)
    } else if eq_lit(tag, "UserUnbanned") {
        Some(UpdateKind::UserUnbanned)
    } else if eq_lit(tag, "UserMuted") {
        Some(UpdateKind::UserMuted)
    } else if eq_lit(tag, "UserUnmuted") {
        Some(UpdateKind::UserUnmuted)
    } else if eq_lit(tag, "UserKicked") {
        Some(UpdateKind::UserKicked)
    } else if eq_lit(tag, "UserHubPermissionChanged") {
        Some(UpdateKind::UserHubPermissionChanged)
    } else if eq_lit(tag, "UserChannelPermissionChanged") {
        Some(UpdateKind::UserChannelPermissionChanged)
    } else if eq_lit(tag, "MemberNicknameChanged") {
        Some(UpdateKind::MemberNicknameChanged)
    } else if eq_lit(tag, "ChannelCreated") {
        Some(UpdateKind::ChannelCreated)
    } else if eq_lit(tag, "ChannelDeleted") {
        Some(UpdateKind::ChannelDeleted)
    } else if eq_lit(tag, "ChannelRenamed") {
        Some(UpdateKind::ChannelRenamed)
    } else if eq_lit(tag, "ChannelDescriptionUpdated") {
        Some(UpdateKind::ChannelDescriptionUpdated)
    } else {
        None
    };
    proof {
        assert forall|k: UpdateKind| #[trigger] update_tag(k) == tag@ implies r == Some(k) by {
            match r {
                Some(j) => lemma_update_tags_distinct(j, k),
                None => {},
            }
        }
    }
    r
}

fn update_kind_has_subject(k: UpdateKind) -> (r: bool)
    ensures
        r == kind_has_subject(k),
{
    match k {
        UpdateKind::HubDeleted => false,
        UpdateKind::HubRenamed => false,
        UpdateKind::HubDescriptionUpdated => false,
        _ => true,
    }
}

proof fn lemma_update_pieces(s: Seq<char>, pos: int, u: HubUpdate)
    requires
        u.subject is Some,
    ensures
        stands_at(s, pos, update_text(u)) <==> ({
            let q = quoted(update_tag(u.kind));
            let b = subject_body(u.subject.unwrap().value, u.channel);
            &&& stands_at(s, pos, seq!['{'])
            &&& stands_at(s, pos + 1, q)
            &&& stands_at(s, pos + 1 + q.len(), seq![':'])
            &&& stands_at(s, pos + 2 + q.len(), b)
            &&& stands_at(s, pos + 2 + q.len() + b.len(), seq!['}'])
        }),
{
    let q = quoted(update_tag(u.kind));
    let b = subject_body(u.subject.unwrap().value, u.channel);
    let a1 = seq!['{'] + q;
    let a2 = a1 + seq![':'];
    let a3 = a2 + b;
    lemma_stands_concat(s, pos, a3, seq!['}']);
    lemma_stands_concat(s, pos, a2, b);
    lemma_stands_concat(s, pos, a1, seq![':']);
    lemma_stands_concat(s, pos, seq!['{'], q);
}

proof fn lemma_pair_pieces(s: Seq<char>, pos: int, v: u128, c: u128)
    ensures
        stands_at(s, pos, subject_body(v, Some(Id { value: c }))) <==> ({
            &&& stands_at(s, pos, seq!['['])
            &&& stands_at(s, pos + 1, qid(v))
            &&& stands_at(s, pos + 1 + qid(v).len(), seq![','])
            &&& stands_at(s, pos + 2 + qid(v).len(), qid(c))
            &&& stands_at(s, pos + 2 + qid(v).len() + qid(c).len(), seq![']'])
        }),
{
    let a1 = seq!['['] + qid(v);
    let a2 = a1 + seq![','];
    let a3 = a2 + qid(c);
    lemma_stands_concat(s, pos, a3, seq![']']);
    lemma_stands_concat(s, pos, a2, qid(c));
    lemma_stands_concat(s, pos, a1, seq![',']);
    lemma_stands_concat(s, pos, seq!['['], qid(v));
}

/// Reads the body that follows the tag of a change that names a subject;
/// `pair` says whether a channel follows the subject.
fn take_subject_body(s: &Vec<char>, pos: usize, pair: bool) -> (r: Option<(Id, Option<Id>, usize)>)
    ensures
        r matches Some((id, c, e)) ==> c is Some == pair && stands_at(
            s@,
            pos as int,
            subject_body(id.value, c),
        ) && e == pos + subject_body(id.value, c).len(),
        forall|v: u128, c: Option<Id>|
            #[trigger] stands_at(s@, pos as int, subject_body(v, c)) && c is Some == pair ==> (
            r matches Some((id, d, e)) && id.value == v && d == c && e == pos + subject_body(
                v,
                c,
            ).len()),
{
    if !pair {
        return match take_id(s, pos) {
            Some((id, e)) => Some((id, None, e)),
            None => None,
        };
    }
    let at1 = match take_char(s, pos, '[') {
        Some(p) => p,
        None => {
            proof {
                assert forall|v: u128, c: Option<Id>|
                    #[trigger] stands_at(s@, pos as int, subject_body(v, c)) && c is Some
                        == pair implies false by {
                    lemma_pair_pieces(s@, pos as int, v, c.unwrap().value);
                }
            }
            return None;
        },
    };
    let (id, at2) = match take_id(s, at1) {
        Some(x) => x,
        None => {
            proof {
                assert forall|v: u128, c: Option<Id>|
                    #[trigger] stands_at(s@, pos as int, subject_body(v, c)) && c is Some
                        == pair implies false by {
                    lemma_pair_pieces(s@, pos as int, v, c.unwrap().value);
                }
            }
            return None;
        },
    };
    proof {
        assert forall|v: u128, c: Option<Id>|
            #[trigger] stands_at(s@, pos as int, subject_body(v, c)) && c is Some == pair implies v
            == id.value && stands_at(s@, at2 as int, seq![',']) && stands_at(
            s@,
            at2 + 1,
            qid(c.unwrap().value),
        ) && stands_at(s@, at2 + 1 + qid(c.unwrap().value).len(), seq![']']) by {
            lemma_pair_pieces(s@, pos as int, v, c.unwrap().value);
        }
    }
    let at3 = match take_char(s, at2, ',') {
        Some(p) => p,
        None => return None,
    };
    let (ch, at4) = match take_id(s, at3) {
        Some(x) => x,
        None => return None,
    };
    let at5 = match take_char(s, at4, ']') {
        Some(p) => p,
        None => return None,
    };
    proof {
        lemma_pair_pieces(s@, pos as int, id.value, ch.value);
        assert forall|v: u128, c: Option<Id>|
            #[trigger] stands_at(s@, pos as int, subject_body(v, c)) && c is Some == pair implies c
            == Some(ch) by {
            lemma_pair_pieces(s@, pos as int, v, c.unwrap().value);
        }
    }
    Some((id, Some(ch), at5))
}

/// Reads the wire text of a change at `pos`.
pub fn take_update(s: &Vec<char>, pos: usize) -> (r: Option<(HubUpdate, usize)>)
    ensures
        r matches Some((u, e)) ==> u.wf() && stands_at(s@, pos as int, update_text(u)) && e == pos
            + update_text(u).len(),
        forall|u: HubUpdate|
            #[trigger] stands_at(s@, pos as int, update_text(u)) && u.wf() ==> (r matches Some(
                (w, e),
            ) && w == u && e == pos + update_text(u).len()),
{
    if pos < s.len() && s[pos] == '"' {
        let (tag, e) = match take_string(s, pos) {
            Some(x) => x,
            None => {
                proof {
                    assert forall|u: HubUpdate| #[trigger]
                        stands_at(s@, pos as int, update_text(u)) && u.wf() implies false by {
                        if u.subject is Some {
                            lemma_update_pieces(s@, pos as int, u);
                            assert(s@.subrange(pos as int, pos + 1)[0] == s@[pos as int]);
                        }
                    }
                }
                return None;
            },
        };
        let k = update_kind_of_tag(&tag);
        proof {
            assert forall|u: HubUpdate| #[trigger]
                stands_at(s@, pos as int, update_text(u)) && u.wf() implies u.subject is None
                && u.kind == k.unwrap() by {
                if u.subject is Some {
                    lemma_update_pieces(s@, pos as int, u);
                    assert(s@.subrange(pos as int, pos + 1)[0] == s@[pos as int]);
                } else {
                    assert(tag@ == update_tag(u.kind));
                }
            }
        }
        match k {
            Some(kind) => {
                if update_kind_has_subject(kind) {
                    return None;
                }
                let u = HubUpdate { kind, subject: None, channel: None };
                Some((u, e))
            },
            None => None,
        }
    } else {
        proof {
            assert forall|u: HubUpdate| #[trigger]
                stands_at(s@, pos as int, update_text(u)) && u.wf() implies u.subject is Some by {
                if u.subject is None {
                    assert(s@.subrange(pos as int, pos + update_text(u).len())[0] == s@[pos as int]);
                }
            }
        }
        let at1 = match take_char(s, pos, '{') {
            Some(p) => p,
            None => {
                proof {
                    assert forall|u: HubUpdate| #[trigger]
                        stands_at(s@, pos as int, update_text(u)) && u.wf() implies false by {
                        lemma_update_pieces(s@, pos as int, u);
                    }
                }
                return None;
            },
        };
        let (tag, at2) = match take_string(s, at1) {
            Some(x) => x,
            None => {
                proof {
                    assert forall|u: HubUpdate| #[trigger]
                        stands_at(s@, pos as int, update_text(u)) && u.wf() implies false by {
                        lemma_update_pieces(s@, pos as int, u);
                    }
                }
                return None;
            },
        };
        proof {
            assert forall|u: HubUpdate| #[trigger]
                stands_at(s@, pos as int, update_text(u)) && u.wf() implies (Some(u.kind) == update_kind_of_tag_spec(tag@)
                && stands_at(s@, at2 + 0, seq![':']) && stands_at(s@, at2 + 1, subject_body(u.subject.unwrap().value, u.channel))
                && stands_at(s@, at2 + 1 + subject_body(u.subject.unwrap().value, u.channel).len(), seq!['}'])) by {
                lemma_update_pieces(s@, pos as int, u);
                lemma_quoted_unique(s@, pos + 1, tag@, update_tag(u.kind));
                lemma_update_tag_spec(u.kind);
            }
        }
        let kind = match update_kind_of_tag(&tag) {
            Some(k) => k,
            None => {
                proof {
                    assert forall|u: HubUpdate| #[trigger]
                        stands_at(s@, pos as int, update_text(u)) && u.wf() implies false by {
                        lemma_update_tag_spec(u.kind);
                    }
                }
                return None;
            },
        };
        proof {
            lemma_update_tag_spec(kind);
        }
        if !update_kind_has_subject(kind) {
            return None;
        }
        let at3 = match take_char(s, at2, ':') {
            Some(p) => p,
            None => return None,
        };
        let pair = kind == UpdateKind::UserChannelPermissionChanged;
        let (id, channel, at4) = match take_subject_body(s, at3, pair) {
            Some(x) => x,
            None => return None,
        };
        let at5 = match take_char(s, at4, '}') {
            Some(p) => p,
            None => return None,
        };
        let u = HubUpdate { kind, subject: Some(id), channel };
        proof {
            lemma_update_pieces(s@, pos as int, u);
        }
        Some((u, at5))
    }
}

/// The kind whose tag is `t`, if any.
pub open spec fn update_kind_of_tag_spec(t: Seq<char>) -> Option<UpdateKind> {
    if exists|k: UpdateKind| update_tag(k) == t {
        Some(choose|k: UpdateKind| update_tag(k) == t)
    } else {
        None
    }
}

proof fn lemma_update_tag_spec(k: UpdateKind)
    ensures
        update_kind_of_tag_spec(update_tag(k)) == Some(k),
{
    let j = choose|j: UpdateKind| update_tag(j) == update_tag(k);
    lemma_update_tags_distinct(j, k);
}

/// A frame that the server sends.
#[derive(Clone, Debug, PartialEq, Eq)]
pub enum ServerFrame {
    /// The last command succeeded.
    Success,
    /// The last command failed, with the server's error code.
    Error(String),
    /// A chat message was posted in a channel that the client follows.
    ChatMessage { sender_id: Id, hub_id: Id, channel_id: Id, message_id: Id, message: String },
    /// A hub that the client follows changed.
    HubUpdated { hub_id: Id, update: HubUpdate },
}

/// A frame as a mathematical value.
pub enum FrameView {
    Success,
    Error(Seq<char>),
    ChatMessage { sender: u128, hub: u128, channel: u128, message_id: u128, text: Seq<char> },
    HubUpdated { hub: u128, update: HubUpdate },
}

impl FrameView {
    pub open spec fn wf(self) -> bool {
        self matches FrameView::HubUpdated { update, .. } ==> update.wf()
    }
}

impl View for ServerFrame {
    type V = FrameView;

    open spec fn view(&self) -> FrameView {
        match self {
            ServerFrame::Success => FrameView::Success,
            ServerFrame::Error(code) => FrameView::Error(code@),
            ServerFrame::ChatMessage { sender_id, hub_id, channel_id, message_id, message } =>
                FrameView::ChatMessage {
                sender: sender_id.value,
                hub: hub_id.value,
                channel: channel_id.value,
                message_id: message_id.value,
                text: message@,
            },
            ServerFrame::HubUpdated { hub_id, update } => FrameView::HubUpdated {
                hub: hub_id.value,
                update: *update,
            },
        }
    }
}

pub open spec fn sender_field() -> Seq<char> {
    ":{\"sender_id\":"@
}

pub open spec fn next_hub_field() -> Seq<char> {
    ",\"hub_id\":"@
}

pub open spec fn message_id_field() -> Seq<char> {
    ",\"message_id\":"@
}

pub open spec fn update_field() -> Seq<char> {
    ",\"update_type\":"@
}

pub open spec fn chat_upto_sender(sender: u128) -> Seq<char> {
    seq!['{'] + quoted("ChatMessage"@) + sender_field() + qid(sender)
}

pub open spec fn chat_upto_channel(sender: u128, hub: u128, channel: u128) -> Seq<char> {
    chat_upto_sender(sender) + next_hub_field() + qid(hub) + channel_field() + qid(channel)
}

pub open spec fn chat_upto_text(
    sender: u128,
    hub: u128,
    channel: u128,
    message_id: u128,
    text: Seq<char>,
) -> Seq<char> {
    chat_upto_channel(sender, hub, channel) + message_id_field() + qid(message_id)
        + message_field() + quoted(text)
}

pub open spec fn updated_upto_hub(hub: u128) -> Seq<char> {
    seq!['{'] + quoted("HubUpdated"@) + hub_field() + qid(hub)
}

/// The wire text of a frame: `"Success"`, `{"Error":"<code>"}`,
/// `{"ChatMessage":{"sender_id":..,"hub_id":..,"channel_id":..,"message_id":..,"message":..}}`
/// or `{"HubUpdated":{"hub_id":..,"update_type":..}}`.
pub open spec fn frame_text(f: FrameView) -> Seq<char> {
    match f {
        FrameView::Success => quoted("Success"@),
        FrameView::Error(code) => seq!['{'] + quoted("Error"@) + seq![':'] + quoted(code) + seq![
            '}',
        ],
        FrameView::ChatMessage { sender, hub, channel, message_id, text } => chat_upto_text(
            sender,
            hub,
            channel,
            message_id,
            text,
        ) + close_two(),
        FrameView::HubUpdated { hub, update } => updated_upto_hub(hub) + update_field()
            + update_text(update) + close_two(),
    }
}

/// Each piece of a frame's text stands at its place in `s`.
pub open spec fn frame_pieces_stand(s: Seq<char>, f: FrameView) -> bool {
    match f {
        FrameView::Success => stands_at(s, 0, quoted("Success"@)),
        FrameView::Error(code) => {
            let q = quoted("Error"@);
            &&& stands_at(s, 0, seq!['{'])
            &&& stands_at(s, 1, q)
            &&& stands_at(s, 1 + q.len() as int, seq![':'])
            &&& stands_at(s, 2 + q.len() as int, quoted(code))
            &&& stands_at(s, 2 + q.len() as int + quoted(code).len() as int, seq!['}'])
        },
        FrameView::ChatMessage { sender, hub, channel, message_id, text } => {
            let q = quoted("ChatMessage"@);
            let at2 = 1 + q.len() as int;
            let at3 = at2 + sender_field().len() as int;
            let at4 = at3 + qid(sender).len() as int;
            let at5 = at4 + next_hub_field().len() as int;
            let at6 = at5 + qid(hub).len() as int;
            let at7 = at6 + channel_field().len() as int;
            let at8 = at7 + qid(channel).len() as int;
            let at9 = at8 + message_id_field().len() as int;
            let at10 = at9 + qid(message_id).len() as int;
            let at11 = at10 + message_field().len() as int;
            let at12 = at11 + quoted(text).len() as int;
            &&& stands_at(s, 0, seq!['{'])
            &&& stands_at(s, 1, q)
            &&& stands_at(s, at2, sender_field())
            &&& stands_at(s, at3, qid(sender))
            &&& stands_at(s, at4, next_hub_field())
            &&& stands_at(s, at5, qid(hub))
            &&& stands_at(s, at6, channel_field())
            &&& stands_at(s, at7, qid(channel))
            &&& stands_at(s, at8, message_id_field())
            &&& stands_at(s, at9, qid(message_id))
            &&& stands_at(s, at10, message_field())
            &&& stands_at(s, at11, quoted(text))
            &&& stands_at(s, at12, close_two())
        },
        FrameView::HubUpdated { hub, update } => {
            let q = quoted("HubUpdated"@);
            let at2 = 1 + q.len() as int;
            let at3 = at2 + hub_field().len() as int;
            let at4 = at3 + qid(hub).len() as int;
            let at5 = at4 + update_field().len() as int;
            let at6 = at5 + update_text(update).len() as int;
            &&& stands_at(s, 0, seq!['{'])
            &&& stands_at(s, 1, q)
            &&& stands_at(s, at2, hub_field())
            &&& stands_at(s, at3, qid(hub))
            &&& stands_at(s, at4, update_field())
            &&& stands_at(s, at5, update_text(update))
            &&& stands_at(s, at6, close_two())
        },
    }
}

pub proof fn lemma_frame_pieces(s: Seq<char>, f: FrameView)
    ensures
        stands_at(s, 0, frame_text(f)) <==> frame_pieces_stand(s, f),
{
    match f {
        FrameView::Success => {},
        FrameView::Error(code) => {
            let q = quoted("Error"@);
            let a1 = seq!['{'] + q;
            let a2 = a1 + seq![':'];
            let a3 = a2 + quoted(code);
            lemma_stands_concat(s, 0, a3, seq!['}']);
            lemma_stands_concat(s, 0, a2, quoted(code));
            lemma_stands_concat(s, 0, a1, seq![':']);
            lemma_stands_concat(s, 0, seq!['{'], q);
        },
        FrameView::ChatMessage { sender, hub, channel, message_id, text } => {
            let q = quoted("ChatMessage"@);
            let a1 = seq!['{'] + q;
            let a2 = a1 + sender_field();
            let a3 = a2 + qid(sender);
            let a4 = a3 + next_hub_field();
            let a5 = a4 + qid(hub);
            let a6 = a5 + channel_field();
            let a7 = a6 + qid(channel);
            let a8 = a7 + message_id_field();
            let a9 = a8 + qid(message_id);
            let a10 = a9 + message_field();
            let a11 = a10 + quoted(text);
            lemma_stands_concat(s, 0, a11, close_two());
            lemma_stands_concat(s, 0, a10, quoted(text));
            lemma_stands_concat(s, 0, a9, message_field());
            lemma_stands_concat(s, 0, a8, qid(message_id));
            lemma_stands_concat(s, 0, a7, message_id_field());
            lemma_stands_concat(s, 0, a6, qid(channel));
            lemma_stands_concat(s, 0, a5, channel_field());
            lemma_stands_concat(s, 0, a4, qid(hub));
            lemma_stands_concat(s, 0, a3, next_hub_field());
            lemma_stands_concat(s, 0, a2, qid(sender));
            lemma_stands_concat(s, 0, a1, sender_field());
            lemma_stands_concat(s, 0, seq!['{'], q);
        },
        FrameView::HubUpdated { hub, update } => {
            let q = quoted("HubUpdated"@);
            let a1 = seq!['{'] + q;
            let a2 = a1 + hub_field();
            let a3 = a2 + qid(hub);
            let a4 = a3 + update_field();
            let a5 = a4 + update_text(update);
            lemma_stands_concat(s, 0, a5, close_two());
            lemma_stands_concat(s, 0, a4, update_text(update));
            lemma_stands_concat(s, 0, a3, update_field());
            lemma_stands_concat(s, 0, a2, qid(hub));
            lemma_stands_concat(s, 0, a1, hub_field());
            lemma_stands_concat(s, 0, seq!['{'], q);
        },
    }
}

proof fn lemma_frame_tags()
    ensures
        "Error"@ != "ChatMessage"@,
        "Error"@ != "HubUpdated"@,
        "ChatMessage"@ != "HubUpdated"@,
        quoted("Success"@)[0] == '"',
{
    reveal_strlit("Error");
    reveal_strlit("ChatMessage");
    reveal_strlit("HubUpdated");
    assert("Error"@.len() == 5);
    assert("ChatMessage"@.len() == 11);
    assert("HubUpdated"@.len() == 10);
}

/// Different frames have different wire texts.
pub proof fn lemma_frame_text_injective(f: FrameView, g: FrameView)
    requires
        f.wf(),
        g.wf(),
        frame_text(f) == frame_text(g),
    ensures
        f == g,
{
    let s = frame_text(f);
    lemma_stands_whole(s);
    lemma_frame_pieces(s, f);
    lemma_frame_pieces(s, g);
    lemma_frame_tags();
    if f is Success || g is Success {
        assert(s.subrange(0, 1)[0] == s[0]);
        if f is Success && g is Success {
        } else {
            assert(false);
        }
    } else {
        let tf = frame_tag(f);
        let tg = frame_tag(g);
        lemma_quoted_unique(s, 1, tf, tg);
        match f {
            FrameView::Error(c) => {
                let d = g->Error_0;
                let p = (2 + quoted("Error"@).len()) as int;
                lemma_quoted_unique(s, p, c, d);
            },
            FrameView::ChatMessage { sender, hub, channel, message_id, text } => {
                let (sg, hg, cg, mg, xg) = match g {
                    FrameView::ChatMessage { sender, hub, channel, message_id, text } => (
                        sender,
                        hub,
                        channel,
                        message_id,
                        text,
                    ),
                    _ => (0, 0, 0, 0, Seq::empty()),
                };
                let at3 = (1 + quoted("ChatMessage"@).len() + sender_field().len()) as int;
                lemma_quoted_unique(s, at3, id_text(sender), id_text(sg));
                crate::id::lemma_id_text_injective(sender, sg);
                let at5 = (at3 + qid(sender).len() + next_hub_field().len()) as int;
                lemma_quoted_unique(s, at5, id_text(hub), id_text(hg));
                crate::id::lemma_id_text_injective(hub, hg);
                let at7 = (at5 + qid(hub).len() + channel_field().len()) as int;
                lemma_quoted_unique(s, at7, id_text(channel), id_text(cg));
                crate::id::lemma_id_text_injective(channel, cg);
                let at9 = (at7 + qid(channel).len() + message_id_field().len()) as int;
                lemma_quoted_unique(s, at9, id_text(message_id), id_text(mg));
                crate::id::lemma_id_text_injective(message_id, mg);
                let at11 = (at9 + qid(message_id).len() + message_field().len()) as int;
                lemma_quoted_unique(s, at11, text, xg);
            },
            FrameView::HubUpdated { hub, update } => {
                let (hg, ug) = match g {
                    FrameView::HubUpdated { hub, update } => (hub, update),
                    _ => (0, update),
                };
                let at3 = (1 + quoted("HubUpdated"@).len() + hub_field().len()) as int;
                lemma_quoted_unique(s, at3, id_text(hub), id_text(hg));
                crate::id::lemma_id_text_injective(hub, hg);
                let at5 = (at3 + qid(hub).len() + update_field().len()) as int;
                lemma_update_unique(s, at5, update, ug);
            },
            FrameView::Success => {},
        }
    }
}

/// The tag of a frame that is written as an object.
pub open spec fn frame_tag(f: FrameView) -> Seq<char> {
    match f {
        FrameView::Success => "Success"@,
        FrameView::Error(_) => "Error"@,
        FrameView::ChatMessage { .. } => "ChatMessage"@,
        FrameView::HubUpdated { .. } => "HubUpdated"@,
    }
}

/// At most one change is written at a given place.
proof fn lemma_update_unique(s: Seq<char>, pos: int, u: HubUpdate, w: HubUpdate)
    requires
        u.wf(),
        w.wf(),
        stands_at(s, pos, update_text(u)),
        stands_at(s, pos, update_text(w)),
    ensures
        u == w,
{
    if u.subject is Some {
        lemma_update_pieces(s, pos, u);
    }
    if w.subject is Some {
        lemma_update_pieces(s, pos, w);
    }
    if u.subject is None {
        assert(s.subrange(pos, pos + update_text(u).len())[0] == s[pos]);
    }
    if w.subject is None {
        assert(s.subrange(pos, pos + update_text(w).len())[0] == s[pos]);
    }
    if u.subject is None && w.subject is None {
        lemma_quoted_unique(s, pos, update_tag(u.kind), update_tag(w.kind));
        lemma_update_tags_distinct(u.kind, w.kind);
    } else if u.subject is Some && w.subject is Some {
        lemma_quoted_unique(s, pos + 1, update_tag(u.kind), update_tag(w.kind));
        lemma_update_tags_distinct(u.kind, w.kind);
        let q = quoted(update_tag(u.kind));
        let at = (pos + 2 + q.len()) as int;
        let (uv, wv) = (u.subject.unwrap().value, w.subject.unwrap().value);
        if u.channel is Some {
            let (uc, wc) = (u.channel.unwrap().value, w.channel.unwrap().value);
            lemma_pair_pieces(s, at, uv, uc);
            lemma_pair_pieces(s, at, wv, wc);
            lemma_quoted_unique(s, at + 1, id_text(uv), id_text(wv));
            crate::id::lemma_id_text_injective(uv, wv);
            lemma_quoted_unique(s, at + 2 + qid(uv).len(), id_text(uc), id_text(wc));
            crate::id::lemma_id_text_injective(uc, wc);
        } else {
            lemma_quoted_unique(s, at, id_text(uv), id_text(wv));
            crate::id::lemma_id_text_injective(uv, wv);
        }
    }
}

/// Reads the wire text of a frame. It succeeds exactly on the texts of
/// frames, and then gives back the frame written.
pub fn decode_frame(text: &str) -> (r: Result<ServerFrame, Error>)
    ensures
        r matches Ok(f) ==> f@.wf() && frame_text(f@) == text@,
        r is Err ==> r == Err::<ServerFrame, Error>(Error::Protocol),
        forall|f: FrameView| #[trigger] frame_text(f) == text@ && f.wf() ==> (r matches Ok(g)
            && g@ == f),
{
    let s = chars_of(text);
    let ghost found = exists|f: FrameView| #[trigger] frame_text(f) == s@ && f.wf();
    let ghost t = choose|f: FrameView| #[trigger] frame_text(f) == s@ && f.wf();
    proof {
        if found {
            lemma_stands_whole(s@);
            lemma_frame_pieces(s@, t);
        }
    }
    let r = decode_frame_chars(&s, Ghost(found), Ghost(t));
    proof {
        assert forall|f: FrameView| #[trigger] frame_text(f) == text@ && f.wf() implies (r matches Ok(
            g,
        ) && g@ == f) by {
            assert(found);
            let g = r->Ok_0;
            lemma_frame_text_injective(g@, f);
        }
    }
    r
}

fn decode_frame_chars(s: &Vec<char>, Ghost(found): Ghost<bool>, Ghost(t): Ghost<FrameView>) -> (r: Result<ServerFrame, Error>)
    requires
        found ==> frame_pieces_stand(s@, t) && t.wf() && frame_text(t).len() == s@.len(),
    ensures
        r matches Ok(f) ==> f@.wf() && frame_text(f@) == s@,
        r is Err ==> r == Err::<ServerFrame, Error>(Error::Protocol) && !found,
{
    proof {
        lemma_frame_tags();
    }
    if s.len() > 0 && s[0] == '"' {
        assert(found ==> t is Success) by {
            if found && !(t is Success) {
                assert(s@.subrange(0, 1)[0] == s@[0]);
            }
        }
        let (tag, e) = match take_string(s, 0) {
            Some(x) => x,
            None => return Err(Error::Protocol),
        };
        if eq_lit(&tag, "Success") && e == s.len() {
            proof {
                lemma_frame_pieces(s@, FrameView::Success);
                lemma_whole_stands(s@, quoted("Success"@));
            }
            return Ok(ServerFrame::Success);
        }
        return Err(Error::Protocol);
    }
    assert(found ==> !(t is Success)) by {
        if found && t is Success {
            assert(s@.subrange(0, quoted("Success"@).len() as int)[0] == s@[0]);
        }
    }
    let at1 = match take_char(s, 0, '{') {
        Some(p) => p,
        None => return Err(Error::Protocol),
    };
    let (tag, at2) = match take_string(s, at1) {
        Some(x) => x,
        None => return Err(Error::Protocol),
    };
    assert(found ==> tag@ == frame_tag(t));
    if eq_lit(&tag, "Error") {
        assert(found ==> t is Error);
        let at3 = match take_char(s, at2, ':') {
            Some(p) => p,
            None => return Err(Error::Protocol),
        };
        let (code, at4) = match take_text(s, at3) {
            Some(x) => x,
            None => return Err(Error::Protocol),
        };
        let at5 = match take_char(s, at4, '}') {
            Some(p) => p,
            None => return Err(Error::Protocol),
        };
        if at5 != s.len() {
            return Err(Error::Protocol);
        }
        let f = ServerFrame::Error(code);
        proof {
            lemma_frame_pieces(s@, f@);
            lemma_whole_stands(s@, frame_text(f@));
        }
        Ok(f)
    } else if eq_lit(&tag, "ChatMessage") {
        assert(found ==> t is ChatMessage);
        let ghost (ts, th, tc, tm, tx) = match t {
            FrameView::ChatMessage { sender, hub, channel, message_id, text } => (
                sender,
                hub,
                channel,
                message_id,
                text,
            ),
            _ => (0, 0, 0, 0, Seq::empty()),
        };
        let at3 = match take_lit(s, at2, ":{\"sender_id\":") {
            Some(p) => p,
            None => return Err(Error::Protocol),
        };
        let (sender, at4) = match take_id(s, at3) {
            Some(x) => x,
            None => return Err(Error::Protocol),
        };
        assert(found ==> sender.value == ts);
        let at5 = match take_lit(s, at4, ",\"hub_id\":") {
            Some(p) => p,
            None => return Err(Error::Protocol),
        };
        let (hub, at6) = match take_id(s, at5) {
            Some(x) => x,
            None => return Err(Error::Protocol),
        };
        assert(found ==> hub.value == th);
        let at7 = match take_lit(s, at6, ",\"channel_id\":") {
            Some(p) => p,
            None => return Err(Error::Protocol),
        };
        let (channel, at8) = match take_id(s, at7) {
            Some(x) => x,
            None => return Err(Error::Protocol),
        };
        assert(found ==> channel.value == tc);
        let at9 = match take_lit(s, at8, ",\"message_id\":") {
            Some(p) => p,
            None => return Err(Error::Protocol),
        };
        let (message_id, at10) = match take_id(s, at9) {
            Some(x) => x,
            None => return Err(Error::Protocol),
        };
        assert(found ==> message_id.value == tm);
        let at11 = match take_lit(s, at10, ",\"message\":") {
            Some(p) => p,
            None => return Err(Error::Protocol),
        };
        let (message, at12) = match take_text(s, at11) {
            Some(x) => x,
            None => return Err(Error::Protocol),
        };
        let at13 = match take_lit(s, at12, "}}") {
            Some(p) => p,
            None => return Err(Error::Protocol),
        };
        if at13 != s.len() {
            return Err(Error::Protocol);
        }
        let f = ServerFrame::ChatMessage {
            sender_id: sender,
            hub_id: hub,
            channel_id: channel,
            message_id,
            message,
        };
        proof {
            lemma_frame_pieces(s@, f@);
            lemma_whole_stands(s@, frame_text(f@));
        }
        Ok(f)
    } else if eq_lit(&tag, "HubUpdated") {
        assert(found ==> t is HubUpdated);
        let ghost (th, tu) = match t {
            FrameView::HubUpdated { hub, update } => (hub, update),
            _ => (0, HubUpdate { kind: UpdateKind::HubDeleted, subject: None, channel: None }),
        };
        let at3 = match take_lit(s, at2, ":{\"hub_id\":") {
            Some(p) => p,
            None => return Err(Error::Protocol),
        };
        let (hub, at4) = match take_id(s, at3) {
            Some(x) => x,
            None => return Err(Error::Protocol),
        };
        assert(found ==> hub.value == th);
        let at5 = match take_lit(s, at4, ",\"update_type\":") {
            Some(p) => p,
            None => return Err(Error::Protocol),
        };
        let (update, at6) = match take_update(s, at5) {
            Some(x) => x,
            None => return Err(Error::Protocol),
        };
        assert(found ==> update == tu);
        let at7 = match take_lit(s, at6, "}}") {
            Some(p) => p,
            None => return Err(Error::Protocol),
        };
        if at7 != s.len() {
            return Err(Error::Protocol);
        }
        let f = ServerFrame::HubUpdated { hub_id: hub, update };
        proof {
            lemma_frame_pieces(s@, f@);
            lemma_whole_stands(s@, frame_text(f@));
        }
        Ok(f)
    } else {
        Err(Error::Protocol)
    }
}

} // verus!
