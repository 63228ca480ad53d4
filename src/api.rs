//! Addresses on the server: the duplex stream's endpoint, its handshake, and
//! the paths of the REST resources.
use crate::id::{id_text, Id};
use crate::text::{push_str, string_of};
use vstd::prelude::*;

verus! {

/// `/<id>` for each identifier in turn.
pub open spec fn ids_text(ids: Seq<Id>) -> Seq<char>
    decreases ids.len(),
{
    if ids.len() == 0 {
        Seq::empty()
    } else {
        ids_text(ids.drop_last()) + seq!['/'] + id_text(ids.last().value)
    }
}

/// `/<resource>/<id>/.../<id>` followed by `/<action>` where there is one.
pub open spec fn path_text(resource: Seq<char>, ids: Seq<Id>, action: Option<Seq<char>>) -> Seq<
    char,
> {
    let base = seq!['/'] + resource + ids_text(ids);
    match action {
        Some(a) => base + seq!['/'] + a,
        None => base,
    }
}

pub open spec fn action_view(action: Option<&str>) -> Option<Seq<char>> {
    match action {
        Some(a) => Some(a@),
        None => None,
    }
}

/// The path of a REST resource: `/<resource>`, then `/<id>` for each of
/// `ids`, then `/<action>` where there is one.
pub fn api_path(resource: &str, ids: &[Id], action: Option<&str>) -> (r: String)
    ensures
        r@ == path_text(resource@, ids@, action_view(action)),
{
    let mut out: Vec<char> = Vec::new();
    out.push('/');
    push_str(&mut out, resource);
    let mut i: usize = 0;
    while i < ids.len()
        invariant
            i <= ids@.len(),
            out@ == seq!['/'] + resource@ + ids_text(ids@.take(i as int)),
        decreases ids@.len() - i,
    {
        out.push('/');
        ids[i].write_text(&mut out);
        proof {
            let t = ids@.take(i + 1);
            assert(t.drop_last() =~= ids@.take(i as int));
            assert(out@ =~= seq!['/'] + resource@ + ids_text(t));
        }
        i = i + 1;
    }
    assert(ids@.take(ids@.len() as int) =~= ids@);
    match action {
        Some(a) => {
            out.push('/');
            push_str(&mut out, a);
            assert(out@ =~= path_text(resource@, ids@, Some(a@)));
        },
        None => {},
    }
    string_of(out)
}

/// The address of a request: the server's API address followed by a path.
pub fn request_url(server_api_url: &str, path: &str) -> (r: String)
    ensures
        r@ == server_api_url@ + path@,
{
    let mut out: Vec<char> = Vec::new();
    push_str(&mut out, server_api_url);
    push_str(&mut out, path);
    string_of(out)
}

/// The address of the duplex stream under the server's API address.
pub fn websocket_url(server_api_url: &str) -> (r: String)
    ensures
        r@ == server_api_url@ + "/websocket"@,
{
    request_url(server_api_url, "/websocket")
}

/// The first frame of a session, and the value of its authorization
/// header: the user's identifier.
pub fn handshake_text(user_id: Id) -> (r: String)
    ensures
        r@ == id_text(user_id.value),
{
    user_id.to_text()
}

} // verus!
