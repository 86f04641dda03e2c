use localmesh::error::Error;
use localmesh::http_router::forward_target;
use localmesh::message_parser::{parse_message, Command};
use localmesh::packet::Message;
use localmesh::service_attacher::{Attachable, ServiceAttacher};
use localmesh::prelude::W;

#[test]
fn unknown_id_is_rejected() {
    let m = Message { id: 9, data_size: 0, data: vec![] };
    assert!(matches!(parse_message(&m), Err(Error::UnknownCommand)));
}

#[test]
fn detach_is_accepted_without_payload_meaning() {
    let m = Message { id: 2, data_size: 0, data: vec![] };
    assert!(matches!(parse_message(&m), Ok(Command::DetachService)));
}

#[test]
fn attach_with_malformed_payload_is_rejected() {
    let m = Message { id: 1, data_size: 3, data: vec![200, 1, 2] };
    assert!(matches!(parse_message(&m), Err(Error::MalformedPayload)));
}

#[test]
fn lua_services_payload_is_decoded() {
    let m = Message { id: 3, data_size: 4, data: vec![3, b'a', b'.', b'l'] };
    match parse_message(&m).unwrap() {
        Command::LuaServices(l) => assert_eq!(l.filepath, b"a.l".to_vec()),
        other => panic!("expected a bulk-load command, got {:?}", other),
    }
}

#[test]
fn attach_scenario_from_wire_bytes_to_forwarded_url() {
    // The attach command for name="echo", cmd="echo", args="hi", port=4000,
    // type=1, exactly as a client frames it on the wire.
    let payload: Vec<u8> = vec![
        4, b'e', b'c', b'h', b'o', // name
        1, // type: HTTP-routable
        0, // path: empty
        4, b'e', b'c', b'h', b'o', // cmd
        2, b'h', b'i', // args
        160, 15, // port 4000, low byte first
    ];
    let mut wire = vec![0x01u8, payload.len() as u8];
    wire.extend_from_slice(&payload);

    let msg = Message::try_from(&wire[..]).unwrap();
    let service = match parse_message(&msg).unwrap() {
        Command::AttachService(s) => s,
        other => panic!("expected an attach command, got {:?}", other),
    };
    let attachable = Attachable::try_from(service).unwrap();
    assert_eq!(attachable.name, "echo");
    assert_eq!(attachable.cmd, "echo");
    assert_eq!(attachable.cmd_args, vec!["hi".to_string()]);
    assert_eq!(attachable.port, 4000);

    let mut registry = ServiceAttacher::new();
    let update = registry.attach(attachable, true).unwrap();
    registry.commit_gateway(update.routes, true).unwrap();

    // A GET to /echo/ping is forwarded to the attached service's port.
    let url = forward_target(&registry.gateway_routes, "/echo/ping").unwrap();
    assert_eq!(url, "http://localhost:4000/ping");
}

#[test]
fn truncated_wire_read_dispatches_no_command() {
    // A read that begins with a header claiming 255 payload bytes but
    // carries only 10: the frame is rejected before any dispatch.
    let mut wire = vec![0x01u8, 255];
    wire.extend_from_slice(&[7u8; 10]);
    match Message::try_from(&wire[..]) {
        Err(Error::TruncatedMessage) => {},
        other => panic!("expected a truncation error, got {:?}", other),
    }
}

#[test]
fn wrapper_newtype_carries_its_value() {
    let w = W(41u32);
    assert_eq!(w.0 + 1, 42);
}
