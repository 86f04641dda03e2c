use localmesh::error::Error;
use localmesh::packet::Service;
use localmesh::service_attacher::{Attachable, HttpAttachable, ServiceAttacher};

fn entry(name: &str, ty: u8, port: u16) -> Attachable {
    Attachable::new(
        name.to_string(),
        "echo".to_string(),
        vec!["hi".to_string()],
        ".".to_string(),
        ty,
        port,
    )
}

#[test]
fn new_registry_is_empty() {
    let r = ServiceAttacher::new();
    assert_eq!(r.services.len(), 0);
    assert_eq!(r.gateway_routes.len(), 0);
    assert!(!r.gateway_running);
}

#[test]
fn attachable_new_keeps_fields_and_mints_id() {
    let a = Attachable::new(
        "svc".to_string(),
        "npm".to_string(),
        vec!["run".to_string(), "debug".to_string()],
        "/srv/app".to_string(),
        1,
        5002,
    );
    assert_eq!(a.name, "svc");
    assert_eq!(a.cmd, "npm");
    assert_eq!(a.cmd_args, vec!["run".to_string(), "debug".to_string()]);
    assert_eq!(a.path, "/srv/app");
    assert_eq!(a.attachable_type, 1);
    assert_eq!(a.port, 5002);
    assert_eq!(a.id.len(), 36);
}

#[test]
fn attach_registers_both_of_two_services() {
    let mut r = ServiceAttacher::new();
    let u1 = r.attach(entry("a", 1, 4001), true).unwrap();
    assert!(u1.displaced.is_none());
    let u2 = r.attach(entry("b", 1, 4002), true).unwrap();
    assert!(u2.displaced.is_none());
    assert_eq!(r.services.len(), 2);
    let names: Vec<&str> = r.services.iter().map(|a| a.name.as_str()).collect();
    assert!(names.contains(&"a") && names.contains(&"b"));
    let routes: Vec<(&str, u16)> =
        u2.routes.iter().map(|h| (h.route_path.as_str(), h.port)).collect();
    assert!(routes.contains(&("a", 4001)));
    assert!(routes.contains(&("b", 4002)));
}

#[test]
fn attach_order_does_not_matter() {
    let mut fwd = ServiceAttacher::new();
    fwd.attach(entry("a", 1, 4001), true).unwrap();
    fwd.attach(entry("b", 1, 4002), true).unwrap();
    let mut rev = ServiceAttacher::new();
    rev.attach(entry("b", 1, 4002), true).unwrap();
    rev.attach(entry("a", 1, 4001), true).unwrap();
    let mut fwd_names: Vec<(String, u16)> =
        fwd.services.iter().map(|a| (a.name.clone(), a.port)).collect();
    let mut rev_names: Vec<(String, u16)> =
        rev.services.iter().map(|a| (a.name.clone(), a.port)).collect();
    fwd_names.sort();
    rev_names.sort();
    assert_eq!(fwd_names, rev_names);
}

#[test]
fn attach_spawn_failure_changes_nothing() {
    let mut r = ServiceAttacher::new();
    let u = r.attach(entry("a", 1, 4001), true).unwrap();
    r.commit_gateway(u.routes, true).unwrap();
    let routes_before: Vec<(String, u16)> =
        r.gateway_routes.iter().map(|h| (h.route_path.clone(), h.port)).collect();
    let res = r.attach(entry("ghost", 1, 4009), false);
    assert!(matches!(res, Err(Error::ProcessSpawnError)));
    assert_eq!(r.services.len(), 1);
    assert_eq!(r.services[0].name, "a");
    let routes_after: Vec<(String, u16)> =
        r.gateway_routes.iter().map(|h| (h.route_path.clone(), h.port)).collect();
    assert_eq!(routes_before, routes_after);
}

#[test]
fn attach_same_name_supersedes_and_hands_back_old_entry() {
    let mut r = ServiceAttacher::new();
    let first = entry("a", 1, 4001);
    let first_id = first.id.clone();
    r.attach(first, true).unwrap();
    let u = r.attach(entry("a", 1, 4005), true).unwrap();
    // Exactly one entry under the name, the later one, in the same table.
    assert_eq!(r.services.len(), 1);
    assert_eq!(r.services[0].name, "a");
    assert_eq!(r.services[0].port, 4005);
    // The superseded entry is handed back, so its process stays tracked.
    let displaced = u.displaced.expect("the earlier entry must be handed back");
    assert_eq!(displaced.id, first_id);
    assert_eq!(displaced.port, 4001);
    // The fresh snapshot already routes to the later port.
    assert_eq!(u.routes.len(), 1);
    assert_eq!(u.routes[0].port, 4005);
}

#[test]
fn snapshot_keeps_only_http_routable_entries() {
    let mut r = ServiceAttacher::new();
    r.attach(entry("web", 1, 4001), true).unwrap();
    r.attach(entry("worker", 0, 4002), true).unwrap();
    let routes = r.http_snapshot();
    assert_eq!(routes.len(), 1);
    assert_eq!(routes[0].route_path, "web");
    assert_eq!(routes[0].name, "web");
    assert_eq!(routes[0].port, 4001);
}

#[test]
fn commit_gateway_success_and_failure() {
    let mut r = ServiceAttacher::new();
    let u = r.attach(entry("a", 1, 4001), true).unwrap();
    r.commit_gateway(u.routes, true).unwrap();
    assert!(r.gateway_running);
    assert_eq!(r.gateway_routes.len(), 1);
    // A rebuild whose bind failed: the table keeps the new entry, the
    // routing snapshot stays stale, and no gateway is running.
    let u2 = r.attach(entry("b", 1, 4002), true).unwrap();
    let res = r.commit_gateway(u2.routes, false);
    assert!(matches!(res, Err(Error::GatewayRebuildError)));
    assert!(!r.gateway_running);
    assert_eq!(r.services.len(), 2);
    assert_eq!(r.gateway_routes.len(), 1);
}

#[test]
fn http_attachable_derives_route_from_name() {
    let a = entry("billing", 1, 9100);
    let h = HttpAttachable::try_from(&a).unwrap();
    assert_eq!(h.route_path, "billing");
    assert_eq!(h.name, "billing");
    assert_eq!(h.id, a.id);
    assert_eq!(h.port, 9100);
}

fn descriptor(name: &[u8], path: &[u8], cmd: &[u8], args: &[u8], ty: u8, port: u16) -> Service {
    Service {
        name_len: name.len() as u8,
        svc_name: name.to_vec(),
        svc_type: ty,
        svc_path_len: path.len() as u8,
        svc_path: path.to_vec(),
        cmd_len: cmd.len() as u8,
        cmd: cmd.to_vec(),
        cmd_args_len: args.len() as u8,
        cmd_args: args.to_vec(),
        svc_port: port,
    }
}

#[test]
fn attachable_from_descriptor_reads_text_and_splits_args() {
    let s = descriptor(b"svc", b"/srv", b"npm", b"run,debug", 1, 5002);
    let a = Attachable::try_from(s).unwrap();
    assert_eq!(a.name, "svc");
    assert_eq!(a.path, "/srv");
    assert_eq!(a.cmd, "npm");
    assert_eq!(a.cmd_args, vec!["run".to_string(), "debug".to_string()]);
    assert_eq!(a.attachable_type, 1);
    assert_eq!(a.port, 5002);
    assert_eq!(a.id.len(), 36);
}

#[test]
fn attachable_from_descriptor_empty_args_is_one_empty_token() {
    let s = descriptor(b"svc", b"", b"echo", b"", 0, 80);
    let a = Attachable::try_from(s).unwrap();
    assert_eq!(a.cmd_args, vec![String::new()]);
}

#[test]
fn attachable_from_descriptor_keeps_empty_middle_token() {
    let s = descriptor(b"svc", b"", b"echo", b"a,,b", 0, 80);
    let a = Attachable::try_from(s).unwrap();
    assert_eq!(a.cmd_args, vec!["a".to_string(), String::new(), "b".to_string()]);
}

#[test]
fn attachable_from_descriptor_decodes_multibyte_text() {
    // "café" is five bytes but four characters: the descriptor's bytes are
    // read as UTF-8, not copied through.
    let s = descriptor("café".as_bytes(), b"", b"echo", b"", 0, 80);
    let a = Attachable::try_from(s).unwrap();
    assert_eq!(a.name, "café");
    assert_eq!(a.name.chars().count(), 4);
}

#[test]
fn attachable_from_descriptor_rejects_invalid_utf8() {
    let s = descriptor(&[0xFF, 0xFE], b"", b"echo", b"", 0, 80);
    assert!(matches!(Attachable::try_from(s), Err(Error::Utf8DecodeError)));
    let s = descriptor(b"svc", b"", b"echo", &[b'a', b',', 0xC0], 0, 80);
    assert!(matches!(Attachable::try_from(s), Err(Error::Utf8DecodeError)));
}
