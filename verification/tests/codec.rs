use localmesh::error::Error;
use localmesh::packet::{LuaServices, Message, PacketHeader, PacketId, Service};

#[test]
fn header_decodes_exactly() {
    let h = PacketHeader::try_from(&[0x01u8, 0x0C][..]).unwrap();
    assert_eq!(h.id, 0x01);
    assert_eq!(h.data_size, 0x0C);
}

#[test]
fn header_rejects_short_buffer() {
    assert!(matches!(PacketHeader::try_from(&[][..]), Err(Error::MalformedHeader)));
    assert!(matches!(PacketHeader::try_from(&[0x01u8][..]), Err(Error::MalformedHeader)));
}

#[test]
fn header_round_trip() {
    let h = PacketHeader { id: 2, data_size: 7 };
    let bytes = h.to_bytes();
    assert_eq!(bytes, vec![2u8, 7u8]);
    let back = PacketHeader::try_from(&bytes[..]).unwrap();
    assert_eq!(back, h);
}

#[test]
fn message_round_trip() {
    let m = Message { id: 1, data_size: 3, data: vec![9, 8, 7] };
    let bytes = m.to_bytes();
    assert_eq!(bytes, vec![1u8, 3, 9, 8, 7]);
    let back = Message::try_from(&bytes[..]).unwrap();
    assert_eq!(back.id, 1);
    assert_eq!(back.data_size, 3);
    assert_eq!(back.data, vec![9u8, 8, 7]);
}

#[test]
fn message_rejects_truncated_payload() {
    // A header declaring 255 payload bytes followed by only 10 of them.
    let mut bytes = vec![0x01u8, 255];
    bytes.extend_from_slice(&[0u8; 10]);
    assert!(matches!(Message::try_from(&bytes[..]), Err(Error::TruncatedMessage)));
}

#[test]
fn message_rejects_excess_bytes() {
    // Declares 1 payload byte but carries 3: not silently trimmed.
    let bytes = vec![0x01u8, 1, 5, 6, 7];
    assert!(matches!(Message::try_from(&bytes[..]), Err(Error::TruncatedMessage)));
}

#[test]
fn message_accepts_empty_payload() {
    let m = Message::try_from(&[0x02u8, 0][..]).unwrap();
    assert_eq!(m.id, 2);
    assert_eq!(m.data.len(), 0);
}

fn sample_service() -> Service {
    Service {
        name_len: 4,
        svc_name: b"echo".to_vec(),
        svc_type: 1,
        svc_path_len: 0,
        svc_path: vec![],
        cmd_len: 4,
        cmd: b"echo".to_vec(),
        cmd_args_len: 2,
        cmd_args: b"hi".to_vec(),
        svc_port: 4000,
    }
}

#[test]
fn service_encoding_is_byte_exact() {
    let bytes = sample_service().to_bytes();
    let expected: Vec<u8> = vec![
        4, b'e', b'c', b'h', b'o', // name
        1, // type
        0, // path (empty)
        4, b'e', b'c', b'h', b'o', // cmd
        2, b'h', b'i', // args
        160, 15, // port 4000, low byte first
    ];
    assert_eq!(bytes, expected);
}

#[test]
fn service_round_trip() {
    let s = sample_service();
    let bytes = s.to_bytes();
    let back = Service::try_from(&bytes[..]).unwrap();
    assert_eq!(back.name_len, s.name_len);
    assert_eq!(back.svc_name, s.svc_name);
    assert_eq!(back.svc_type, s.svc_type);
    assert_eq!(back.svc_path_len, s.svc_path_len);
    assert_eq!(back.svc_path, s.svc_path);
    assert_eq!(back.cmd_len, s.cmd_len);
    assert_eq!(back.cmd, s.cmd);
    assert_eq!(back.cmd_args_len, s.cmd_args_len);
    assert_eq!(back.cmd_args, s.cmd_args);
    assert_eq!(back.svc_port, s.svc_port);
}

#[test]
fn service_round_trip_all_fields_filled() {
    let s = Service {
        name_len: 7,
        svc_name: b"billing".to_vec(),
        svc_type: 0,
        svc_path_len: 8,
        svc_path: b"/srv/app".to_vec(),
        cmd_len: 3,
        cmd: b"npm".to_vec(),
        cmd_args_len: 9,
        cmd_args: b"run,debug".to_vec(),
        svc_port: 65535,
    };
    let bytes = s.to_bytes();
    let back = Service::try_from(&bytes[..]).unwrap();
    assert_eq!(back.svc_name, s.svc_name);
    assert_eq!(back.svc_path, s.svc_path);
    assert_eq!(back.cmd, s.cmd);
    assert_eq!(back.cmd_args, s.cmd_args);
    assert_eq!(back.svc_port, 65535);
}

#[test]
fn service_rejects_overrunning_field_length() {
    // name_len says 5 but only 2 bytes follow before the buffer ends.
    let bytes = vec![5u8, b'a', b'b'];
    assert!(matches!(Service::try_from(&bytes[..]), Err(Error::MalformedPayload)));
}

#[test]
fn service_rejects_missing_port() {
    // All four byte fields present and empty, type present, port bytes missing.
    let bytes = vec![0u8, 1, 0, 0, 0];
    assert!(matches!(Service::try_from(&bytes[..]), Err(Error::MalformedPayload)));
    // One port byte is still one short.
    let bytes = vec![0u8, 1, 0, 0, 0, 160];
    assert!(matches!(Service::try_from(&bytes[..]), Err(Error::MalformedPayload)));
}

#[test]
fn service_rejects_trailing_bytes() {
    let mut bytes = sample_service().to_bytes();
    bytes.push(0);
    assert!(matches!(Service::try_from(&bytes[..]), Err(Error::MalformedPayload)));
}

#[test]
fn service_minimal_all_empty() {
    // Empty name, path, cmd and args still decode; port is read exactly.
    let bytes = vec![0u8, 9, 0, 0, 0, 1, 0];
    let s = Service::try_from(&bytes[..]).unwrap();
    assert_eq!(s.svc_type, 9);
    assert_eq!(s.svc_port, 1);
    assert_eq!(s.svc_name.len(), 0);
}

#[test]
fn lua_services_round_trip() {
    let l = LuaServices { filepath_len: 12, filepath: b"services.lua".to_vec() };
    let bytes = l.to_bytes();
    assert_eq!(bytes[0], 12);
    let back = LuaServices::try_from(&bytes[..]).unwrap();
    assert_eq!(back.filepath, b"services.lua".to_vec());
    assert_eq!(back.filepath_len, 12);
}

#[test]
fn lua_services_rejects_bad_lengths() {
    assert!(matches!(LuaServices::try_from(&[][..]), Err(Error::MalformedPayload)));
    assert!(matches!(LuaServices::try_from(&[3u8, b'a'][..]), Err(Error::MalformedPayload)));
    assert!(matches!(
        LuaServices::try_from(&[1u8, b'a', b'b'][..]),
        Err(Error::MalformedPayload)
    ));
}

#[test]
fn packet_id_codes() {
    assert!(matches!(PacketId::try_from(1), Ok(PacketId::AttachService)));
    assert!(matches!(PacketId::try_from(2), Ok(PacketId::DetachService)));
    assert!(matches!(PacketId::try_from(3), Ok(PacketId::LuaServices)));
    assert!(PacketId::try_from(0).is_err());
    assert!(PacketId::try_from(4).is_err());
    assert_eq!(PacketId::AttachService.code(), 1);
    assert_eq!(PacketId::DetachService.code(), 2);
    assert_eq!(PacketId::LuaServices.code(), 3);
}
