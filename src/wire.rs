//! The wire format of the duplex stream: commands that the client sends and
//! frames that the server sends, each one compact JSON object in a text frame.
use crate::error::Error;
use crate::id::{id_text, Id};
use crate::text::{
    chars_of, escape, is_plain, lemma_escape_plain, lemma_quoted_unique, push_quoted, push_str,
    quoted, stands_at, string_of, take_lit, take_string,
};
use vstd::prelude::*;

verus! {

/// The string literal of an identifier.
pub open spec fn qid(v: u128) -> Seq<char> {
    quoted(id_text(v))
}

/// Each piece stands in turn exactly when their concatenation stands.
pub proof fn lemma_stands_concat(s: Seq<char>, pos: int, a: Seq<char>, b: Seq<char>)
    ensures
        stands_at(s, pos, a + b) <==> (stands_at(s, pos, a) && stands_at(s, pos + a.len(), b)),
{
    if stands_at(s, pos, a) && stands_at(s, pos + a.len(), b) {
        assert(s.subrange(pos, pos + (a + b).len()) =~= s.subrange(pos, pos + a.len())
            + s.subrange(pos + a.len(), pos + a.len() + b.len()));
    }
    if stands_at(s, pos, a + b) {
        assert(s.subrange(pos, pos + a.len()) =~= (a + b).subrange(0, a.len() as int));
        assert(s.subrange(pos + a.len(), pos + a.len() + b.len()) =~= (a + b).subrange(
            a.len() as int,
            (a + b).len() as int,
        ));
        assert((a + b).subrange(0, a.len() as int) =~= a);
        assert((a + b).subrange(a.len() as int, (a + b).len() as int) =~= b);
    }
}

pub proof fn lemma_stands_whole(s: Seq<char>)
    ensures
        stands_at(s, 0, s),
{
    assert(s.subrange(0, s.len() as int) =~= s);
}

pub proof fn lemma_whole_stands(s: Seq<char>, t: Seq<char>)
    requires
        stands_at(s, 0, t),
        t.len() == s.len(),
    ensures
        s == t,
{
    assert(s =~= s.subrange(0, s.len() as int));
}

pub fn take_char(s: &Vec<char>, pos: usize, c: char) -> (r: Option<usize>)
    ensures
        stands_at(s@, pos as int, seq![c]) ==> (r matches Some(e) && e == pos + 1),
        !stands_at(s@, pos as int, seq![c]) ==> r is None,
{
    if pos < s.len() && s[pos] == c {
        assert(s@.subrange(pos as int, pos + 1) =~= seq![c]);
        Some(pos + 1)
    } else {
        proof {
            if stands_at(s@, pos as int, seq![c]) {
                assert(s@.subrange(pos as int, pos + 1)[0] == s@[pos as int]);
            }
        }
        None
    }
}

/// Reads the string literal of an identifier at `pos`.
pub fn take_id(s: &Vec<char>, pos: usize) -> (r: Option<(Id, usize)>)
    ensures
        r matches Some((id, e)) ==> stands_at(s@, pos as int, qid(id.value)) && e == pos + qid(
            id.value,
        ).len(),
        forall|v: u128|
            #[trigger] stands_at(s@, pos as int, qid(v)) ==> (r matches Some((id, e)) && id.value
                == v && e == pos + qid(v).len()),
{
    match take_string(s, pos) {
        None => None,
        Some((t, e)) => {
            match Id::parse_text(&t) {
                None => {
                    proof {
                        assert forall|v: u128| !#[trigger] stands_at(s@, pos as int, qid(v)) by {
                            if stands_at(s@, pos as int, qid(v)) {
                                assert(t@ == id_text(v));
                            }
                        }
                    }
                    None
                },
                Some(id) => {
                    proof {
                        assert forall|v: u128| #[trigger] stands_at(s@, pos as int, qid(v)) implies v
                            == id.value by {
                            crate::id::lemma_id_text_injective(v, id.value);
                        }
                    }
                    Some((id, e))
                },
            }
        },
    }
}

/// Reads a string literal at `pos` as a `String`.
pub fn take_text(s: &Vec<char>, pos: usize) -> (r: Option<(String, usize)>)
    ensures
        r matches Some((t, e)) ==> stands_at(s@, pos as int, quoted(t@)) && e == pos + quoted(
            t@,
        ).len(),
        forall|t: Seq<char>|
            #[trigger] stands_at(s@, pos as int, quoted(t)) ==> (r matches Some((u, e)) && u@
                == t && e == pos + quoted(t).len()),
{
    match take_string(s, pos) {
        None => None,
        Some((t, e)) => Some((string_of(t), e)),
    }
}

/// Appends the string literal of an identifier.
pub fn push_qid(out: &mut Vec<char>, id: Id)
    ensures
        final(out)@ == old(out)@ + qid(id.value),
{
    out.push('"');
    id.write_text(out);
    out.push('"');
    proof {
        let t = id_text(id.value);
        crate::id::lemma_id_text_hex(id.value);
        assert forall|i: int| 0 <= i < t.len() implies is_plain(#[trigger] t[i]) by {
            if !crate::id::is_hyphen_pos(i) {
                assert(crate::id::is_hex_digit(t[i]));
            }
        }
        lemma_escape_plain(t);
        assert(out@ =~= old(out)@ + qid(id.value));
    }
}

/// The kinds of command.
#[derive(Clone, Copy, Debug, PartialEq, Eq, Structural)]
pub enum CommandKind {
    SubscribeHub,
    UnsubscribeHub,
    SubscribeChannel,
    UnsubscribeChannel,
    StartTyping,
    StopTyping,
    SendMessage,
}

/// A command that the client sends to the server.
#[derive(Clone, Debug, PartialEq, Eq)]
pub enum Command {
    SubscribeHub { hub_id: Id },
    UnsubscribeHub { hub_id: Id },
    SubscribeChannel { hub_id: Id, channel_id: Id },
    UnsubscribeChannel { hub_id: Id, channel_id: Id },
    StartTyping { hub_id: Id, channel_id: Id },
    StopTyping { hub_id: Id, channel_id: Id },
    SendMessage { hub_id: Id, channel_id: Id, message: String },
}

/// A command as a mathematical value: its kind, its hub, its channel where
/// the kind has one, and its message text where the kind has one.
pub struct CommandView {
    pub kind: CommandKind,
    pub hub: u128,
    pub channel: Option<u128>,
    pub message: Option<Seq<char>>,
}

pub open spec fn kind_has_channel(k: CommandKind) -> bool {
    !(k == CommandKind::SubscribeHub || k == CommandKind::UnsubscribeHub)
}

pub open spec fn kind_has_message(k: CommandKind) -> bool {
    k == CommandKind::SendMessage
}

impl CommandView {
    /// The fields present are those of the kind.
    pub open spec fn wf(self) -> bool {
        &&& self.channel is Some == kind_has_channel(self.kind)
        &&& self.message is Some == kind_has_message(self.kind)
    }
}

impl View for Command {
    type V = CommandView;

    open spec fn view(&self) -> CommandView {
        match self {
            Command::SubscribeHub { hub_id } => CommandView {
                kind: CommandKind::SubscribeHub,
                hub: hub_id.value,
                channel: None,
                message: None,
            },
            Command::UnsubscribeHub { hub_id } => CommandView {
                kind: CommandKind::UnsubscribeHub,
                hub: hub_id.value,
                channel: None,
                message: None,
            },
            Command::SubscribeChannel { hub_id, channel_id } => CommandView {
                kind: CommandKind::SubscribeChannel,
                hub: hub_id.value,
                channel: Some(channel_id.value),
                message: None,
            },
            Command::UnsubscribeChannel { hub_id, channel_id } => CommandView {
                kind: CommandKind::UnsubscribeChannel,
                hub: hub_id.value,
                channel: Some(channel_id.value),
                message: None,
            },
            Command::StartTyping { hub_id, channel_id } => CommandView {
                kind: CommandKind::StartTyping,
                hub: hub_id.value,
                channel: Some(channel_id.value),
                message: None,
            },
            Command::StopTyping { hub_id, channel_id } => CommandView {
                kind: CommandKind::StopTyping,
                hub: hub_id.value,
                channel: Some(channel_id.value),
                message: None,
            },
            Command::SendMessage { hub_id, channel_id, message } => CommandView {
                kind: CommandKind::SendMessage,
                hub: hub_id.value,
                channel: Some(channel_id.value),
                message: Some(message@),
            },
        }
    }
}

/// The tag that names a kind of command on the wire.
pub open spec fn command_tag(k: CommandKind) -> Seq<char> {
    match k {
        CommandKind::SubscribeHub => "SubscribeHub"@,
        CommandKind::UnsubscribeHub => "UnsubscribeHub"@,
        CommandKind::SubscribeChannel => "SubscribeChannel"@,
        CommandKind::UnsubscribeChannel => "UnsubscribeChannel"@,
        CommandKind::StartTyping => "StartTyping"@,
        CommandKind::StopTyping => "StopTyping"@,
        CommandKind::SendMessage => "SendMessage"@,
    }
}

pub open spec fn hub_field() -> Seq<char> {
    ":{\"hub_id\":"@
}

pub open spec fn channel_field() -> Seq<char> {
    ",\"channel_id\":"@
}

pub open spec fn message_field() -> Seq<char> {
    ",\"message\":"@
}

pub open spec fn close_two() -> Seq<char> {
    "}}"@
}

/// The text of a command up to its hub.
pub open spec fn command_head(c: CommandView) -> Seq<char> {
    seq!['{'] + quoted(command_tag(c.kind)) + hub_field() + qid(c.hub)
}

/// The text of a command up to its channel.
pub open spec fn command_upto_channel(c: CommandView) -> Seq<char> {
    match c.channel {
        Some(ch) => command_head(c) + channel_field() + qid(ch),
        None => command_head(c),
    }
}

/// The text of a command up to its message.
pub open spec fn command_upto_message(c: CommandView) -> Seq<char> {
    match c.message {
        Some(m) => command_upto_channel(c) + message_field() + quoted(m),
        None => command_upto_channel(c),
    }
}

/// The wire text of a command:
/// `{"Kind":{"hub_id":"..","channel_id":"..","message":".."}}`, with the
/// fields that its kind has.
pub open spec fn command_text(c: CommandView) -> Seq<char> {
    command_upto_message(c) + close_two()
}

/// Different kinds of command have different tags.
pub proof fn lemma_command_tags_distinct(a: CommandKind, b: CommandKind)
    requires
        command_tag(a) == command_tag(b),
    ensures
        a == b,
{
    reveal_strlit("SubscribeHub");
    reveal_strlit("UnsubscribeHub");
    reveal_strlit("SubscribeChannel");
    reveal_strlit("UnsubscribeChannel");
    reveal_strlit("StartTyping");
    reveal_strlit("StopTyping");
    reveal_strlit("SendMessage");
    assert("SubscribeHub"@.len() == 12);
    assert("UnsubscribeHub"@.len() == 14);
    assert("SubscribeChannel"@.len() == 16);
    assert("UnsubscribeChannel"@.len() == 18);
    assert("StartTyping"@.len() == 11);
    assert("StopTyping"@.len() == 10);
    assert("SendMessage"@.len() == 11);
    assert("StartTyping"@[1] != "SendMessage"@[1]);
}

fn command_tag_str(k: CommandKind) -> (r: &'static str)
    ensures
        r@ == command_tag(k),
{
    match k {
        CommandKind::SubscribeHub => "SubscribeHub",
        CommandKind::UnsubscribeHub => "UnsubscribeHub",
        CommandKind::SubscribeChannel => "SubscribeChannel",
        CommandKind::UnsubscribeChannel => "UnsubscribeChannel",
        CommandKind::StartTyping => "StartTyping",
        CommandKind::StopTyping => "StopTyping",
        CommandKind::SendMessage => "SendMessage",
    }
}

fn command_kind_of_tag(tag: &Vec<char>) -> (r: Option<CommandKind>)
    ensures
        r matches Some(k) ==> command_tag(k) == tag@,
        forall|k: CommandKind| #[trigger] command_tag(k) == tag@ ==> r == Some(k),
{
    let r = if crate::text::eq_lit(tag, "SubscribeHub") {
        Some(CommandKind::SubscribeHub)
    } else if crate::text::eq_lit(tag, "UnsubscribeHub") {
        Some(CommandKind::UnsubscribeHub)
    } else if crate::text::eq_lit(tag, "SubscribeChannel") {
        Some(CommandKind::SubscribeChannel)
    } else if crate::text::eq_lit(tag, "UnsubscribeChannel") {
        Some(CommandKind::UnsubscribeChannel)
    } else if crate::text::eq_lit(tag, "StartTyping") {
        Some(CommandKind::StartTyping)
    } else if crate::text::eq_lit(tag, "StopTyping") {
        Some(CommandKind::StopTyping)
    } else if crate::text::eq_lit(tag, "SendMessage") {
        Some(CommandKind::SendMessage)
    } else {
        None
    };
    proof {
        assert forall|k: CommandKind| #[trigger] command_tag(k) == tag@ implies r == Some(k) by {
            match r {
                Some(j) => lemma_command_tags_distinct(j, k),
                None => {},
            }
        }
    }
    r
}

/// Each piece of a command's text stands at its place in `s`.
pub open spec fn command_pieces_stand(s: Seq<char>, c: CommandView) -> bool {
    let qtag = quoted(command_tag(c.kind));
    &&& stands_at(s, 0, seq!['{'])
    &&& stands_at(s, 1, qtag)
    &&& stands_at(s, 1 + qtag.len() as int, hub_field())
    &&& stands_at(s, (1 + qtag.len() + hub_field().len()) as int, qid(c.hub))
    &&& (c.channel matches Some(ch) ==> stands_at(s, command_head(c).len() as int, channel_field())
        && stands_at(s, (command_head(c).len() + channel_field().len()) as int, qid(ch)))
    &&& (c.message matches Some(m) ==> stands_at(
        s,
        command_upto_channel(c).len() as int,
        message_field(),
    ) && stands_at(
        s,
        (command_upto_channel(c).len() + message_field().len()) as int,
        quoted(m),
    ))
    &&& stands_at(s, command_upto_message(c).len() as int, close_two())
}

pub proof fn lemma_command_pieces(s: Seq<char>, c: CommandView)
    ensures
        stands_at(s, 0, command_text(c)) <==> command_pieces_stand(s, c),
{
    let qtag = quoted(command_tag(c.kind));
    let a1 = seq!['{'] + qtag;
    let a2 = a1 + hub_field();
    lemma_stands_concat(s, 0, command_upto_message(c), close_two());
    lemma_stands_concat(s, 0, seq!['{'], qtag);
    lemma_stands_concat(s, 0, a1, hub_field());
    lemma_stands_concat(s, 0, a2, qid(c.hub));
    match c.channel {
        Some(ch) => {
            lemma_stands_concat(s, 0, command_head(c), channel_field());
            lemma_stands_concat(s, 0, command_head(c) + channel_field(), qid(ch));
        },
        None => {},
    }
    match c.message {
        Some(m) => {
            lemma_stands_concat(s, 0, command_upto_channel(c), message_field());
            lemma_stands_concat(s, 0, command_upto_channel(c) + message_field(), quoted(m));
        },
        None => {},
    }
}

/// Round trip of a command through its wire text. `Command::encode(c)`
/// returns `command_text(c@)`, and `decode_command` returns `Ok(d)` only with
/// `command_text(d@)` equal to its input; this lemma closes the loop: such a
/// `d` has the view of `c`.
pub proof fn lemma_command_round_trip(c: &Command, d: &Command)
    requires
        command_text(d@) == command_text(c@),
    ensures
        d@ == c@,
{
    lemma_command_text_injective(c@, d@);
}

fn command_kind_has_channel(k: CommandKind) -> (r: bool)
    ensures
        r == kind_has_channel(k),
{
    match k {
        CommandKind::SubscribeHub => false,
        CommandKind::UnsubscribeHub => false,
        _ => true,
    }
}

/// Reads the wire text of a command. It succeeds exactly on the texts that
/// `Command::encode` writes, and then gives back the command written.
pub fn decode_command(text: &str) -> (r: Result<Command, Error>)
    ensures
        r matches Ok(c) ==> c@.wf() && command_text(c@) == text@,
        r is Err ==> r == Err::<Command, Error>(Error::Protocol),
        forall|c: CommandView| #[trigger] command_text(c) == text@ && c.wf() ==> (r matches Ok(
            d,
        ) && d@ == c),
{
    let s = chars_of(text);
    let ghost found = exists|c: CommandView| #[trigger] command_text(c) == s@ && c.wf();
    let ghost t = choose|c: CommandView| #[trigger] command_text(c) == s@ && c.wf();
    proof {
        if found {
            lemma_stands_whole(s@);
            lemma_command_pieces(s@, t);
        }
    }
    let r = decode_command_chars(&s, Ghost(found), Ghost(t));
    proof {
        assert forall|c: CommandView| #[trigger] command_text(c) == text@ && c.wf() implies (r matches Ok(
            d,
        ) && d@ == c) by {
            assert(found);
            assert(command_text(t) == command_text(c));
            let d = r->Ok_0;
            lemma_command_text_injective(d@, c);
        }
    }
    r
}

fn decode_command_chars(s: &Vec<char>, Ghost(found): Ghost<bool>, Ghost(t): Ghost<CommandView>) -> (r: Result<Command, Error>)
    requires
        found ==> command_pieces_stand(s@, t) && t.wf() && command_text(t).len() == s@.len(),
    ensures
        r matches Ok(c) ==> c@.wf() && command_text(c@) == s@,
        r is Err ==> r == Err::<Command, Error>(Error::Protocol) && !found,
{
    let at1 = match take_char(s, 0, '{') {
        Some(p) => p,
        None => return Err(Error::Protocol),
    };
    let (tag, at2) = match take_string(s, at1) {
        Some(x) => x,
        None => return Err(Error::Protocol),
    };
    assert(found ==> tag@ == command_tag(t.kind));
    let kind = match command_kind_of_tag(&tag) {
        Some(k) => k,
        None => return Err(Error::Protocol),
    };
    assert(found ==> kind == t.kind);
    let at3 = match take_lit(s, at2, ":{\"hub_id\":") {
        Some(p) => p,
        None => return Err(Error::Protocol),
    };
    let (hub, at4) = match take_id(s, at3) {
        Some(x) => x,
        None => return Err(Error::Protocol),
    };
    assert(found ==> hub.value == t.hub);
    let mut channel: Option<Id> = None;
    let mut at6 = at4;
    if command_kind_has_channel(kind) {
        let at5 = match take_lit(s, at4, ",\"channel_id\":") {
            Some(p) => p,
            None => return Err(Error::Protocol),
        };
        let (ch, e) = match take_id(s, at5) {
            Some(x) => x,
            None => return Err(Error::Protocol),
        };
        assert(found ==> t.channel == Some(ch.value));
        channel = Some(ch);
        at6 = e;
    }
    let mut message: Option<String> = None;
    let mut at8 = at6;
    if kind == CommandKind::SendMessage {
        let at7 = match take_lit(s, at6, ",\"message\":") {
            Some(p) => p,
            None => return Err(Error::Protocol),
        };
        let (m, e) = match take_text(s, at7) {
            Some(x) => x,
            None => return Err(Error::Protocol),
        };
        assert(found ==> t.message == Some(m@));
        message = Some(m);
        at8 = e;
    }
    let at9 = match take_lit(s, at8, "}}") {
        Some(p) => p,
        None => return Err(Error::Protocol),
    };
    if at9 != s.len() {
        return Err(Error::Protocol);
    }
    let c = match kind {
        CommandKind::SubscribeHub => Command::SubscribeHub { hub_id: hub },
        CommandKind::UnsubscribeHub => Command::UnsubscribeHub { hub_id: hub },
        CommandKind::SubscribeChannel => Command::SubscribeChannel {
            hub_id: hub,
            channel_id: channel.unwrap(),
        },
        CommandKind::UnsubscribeChannel => Command::UnsubscribeChannel {
            hub_id: hub,
            channel_id: channel.unwrap(),
        },
        CommandKind::StartTyping => Command::StartTyping { hub_id: hub, channel_id: channel.unwrap() },
        CommandKind::StopTyping => Command::StopTyping { hub_id: hub, channel_id: channel.unwrap() },
        CommandKind::SendMessage => Command::SendMessage {
            hub_id: hub,
            channel_id: channel.unwrap(),
            message: message.unwrap(),
        },
    };
    proof {
        assert(command_pieces_stand(s@, c@));
        lemma_command_pieces(s@, c@);
        lemma_whole_stands(s@, command_text(c@));
    }
    Ok(c)
}

/// Different commands have different wire texts.
pub proof fn lemma_command_text_injective(c: CommandView, d: CommandView)
    requires
        c.wf(),
        d.wf(),
        command_text(c) == command_text(d),
    ensures
        c == d,
{
    let s = command_text(c);
    lemma_stands_whole(s);
    lemma_command_pieces(s, c);
    lemma_command_pieces(s, d);
    lemma_quoted_unique(s, 1, command_tag(c.kind), command_tag(d.kind));
    lemma_command_tags_distinct(c.kind, d.kind);
    let at3 = (1 + quoted(command_tag(c.kind)).len() + hub_field().len()) as int;
    lemma_quoted_unique(s, at3, id_text(c.hub), id_text(d.hub));
    crate::id::lemma_id_text_injective(c.hub, d.hub);
    if kind_has_channel(c.kind) {
        let ch = c.channel.unwrap();
        let dh = d.channel.unwrap();
        lemma_quoted_unique(
            s,
            (command_head(c).len() + channel_field().len()) as int,
            id_text(ch),
            id_text(dh),
        );
        crate::id::lemma_id_text_injective(ch, dh);
    }
    if kind_has_message(c.kind) {
        lemma_quoted_unique(
            s,
            (command_upto_channel(c).len() + message_field().len()) as int,
            c.message.unwrap(),
            d.message.unwrap(),
        );
    }
}

impl Command {
    /// The kind of the command.
    pub fn kind(&self) -> (r: CommandKind)
        ensures
            r == self@.kind,
    {
        match self {
            Command::SubscribeHub { .. } => CommandKind::SubscribeHub,
            Command::UnsubscribeHub { .. } => CommandKind::UnsubscribeHub,
            Command::SubscribeChannel { .. } => CommandKind::SubscribeChannel,
            Command::UnsubscribeChannel { .. } => CommandKind::UnsubscribeChannel,
            Command::StartTyping { .. } => CommandKind::StartTyping,
            Command::StopTyping { .. } => CommandKind::StopTyping,
            Command::SendMessage { .. } => CommandKind::SendMessage,
        }
    }

    /// The wire text of the command.
    pub fn encode(&self) -> (r: String)
        ensures
            r@ == command_text(self@),
    {
        let mut out: Vec<char> = Vec::new();
        out.push('{');
        push_quoted(&mut out, command_tag_str(self.kind()));
        push_str(&mut out, ":{\"hub_id\":");
        let hub = match self {
            Command::SubscribeHub { hub_id } => *hub_id,
            Command::UnsubscribeHub { hub_id } => *hub_id,
            Command::SubscribeChannel { hub_id, .. } => *hub_id,
            Command::UnsubscribeChannel { hub_id, .. } => *hub_id,
            Command::StartTyping { hub_id, .. } => *hub_id,
            Command::StopTyping { hub_id, .. } => *hub_id,
            Command::SendMessage { hub_id, .. } => *hub_id,
        };
        push_qid(&mut out, hub);
        assert(out@ =~= command_head(self@));
        let channel = match self {
            Command::SubscribeChannel { channel_id, .. } => Some(*channel_id),
            Command::UnsubscribeChannel { channel_id, .. } => Some(*channel_id),
            Command::StartTyping { channel_id, .. } => Some(*channel_id),
            Command::StopTyping { channel_id, .. } => Some(*channel_id),
            Command::SendMessage { channel_id, .. } => Some(*channel_id),
            _ => None,
        };
        match channel {
            Some(ch) => {
                push_str(&mut out, ",\"channel_id\":");
                push_qid(&mut out, ch);
            },
            None => {},
        }
        assert(out@ =~= command_upto_channel(self@));
        match self {
            Command::SendMessage { message, .. } => {
                push_str(&mut out, ",\"message\":");
                push_quoted(&mut out, message.as_str());
            },
            _ => {},
        }
        assert(out@ =~= command_upto_message(self@));
        push_str(&mut out, "}}");
        string_of(out)
    }
}

} // verus!
