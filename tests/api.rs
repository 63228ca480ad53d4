use wicrs_api::api::{api_path, handshake_text, request_url, websocket_url};
use wicrs_api::id::Id;

#[test]
fn paths_of_resources() {
    let hub = Id { value: 1 };
    let member = Id { value: 0xabc };
    assert_eq!(api_path("hub", &[], None), "/hub");
    assert_eq!(
        api_path("hub", &[hub], None),
        "/hub/00000000-0000-0000-0000-000000000001"
    );
    assert_eq!(
        api_path("hub", &[hub], Some("join")),
        "/hub/00000000-0000-0000-0000-000000000001/join"
    );
    assert_eq!(
        api_path("member", &[hub, member], Some("kick")),
        "/member/00000000-0000-0000-0000-000000000001/00000000-0000-0000-0000-000000000abc/kick"
    );
    assert_eq!(
        api_path("member", &[hub, member], Some("hub_permission/Administrate")),
        "/member/00000000-0000-0000-0000-000000000001/00000000-0000-0000-0000-000000000abc/hub_permission/Administrate"
    );
}

#[test]
fn addresses_of_the_server() {
    assert_eq!(
        websocket_url("ws://localhost:8080/api"),
        "ws://localhost:8080/api/websocket"
    );
    assert_eq!(
        request_url("http://localhost:8080/api", "/hub"),
        "http://localhost:8080/api/hub"
    );
    assert_eq!(
        handshake_text(Id { value: 0x10 }),
        "00000000-0000-0000-0000-000000000010"
    );
}
