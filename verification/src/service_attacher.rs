//! The service registry: the authoritative table of attached services.
//!
//! The registry decides what an attach does to the table and to the proxy's
//! routing snapshot. The surrounding daemon owns the operating-system side
//! of an attach — spawning the child process, pumping its output, binding
//! the rebuilt gateway — and reports each outcome here as a plain value, so
//! that every bookkeeping decision is made, and checked, in one place. The
//! caller serializes attaches with a single exclusive lock, which makes the
//! registry's sequential behaviour the whole story.
//!
//! Name policy: a later attach under an already-present name supersedes the
//! earlier entry, and the superseded entry is handed back to the caller so
//! its process handle is never left dangling untracked.

use vstd::prelude::*;

use crate::error::Error;
use crate::packet::{Service, SpecService};
use vstd::utf8::{decode_utf8, valid_utf8};

verus! {

/// A runtime registry entry: one attached service. The child-process and
/// output-pump handles that belong to the entry are owned by the daemon
/// around the registry, keyed by this entry's `id`.
#[derive(Clone, Debug)]
pub struct Attachable {
    pub id: String,
    pub name: String,
    pub cmd: String,
    pub cmd_args: Vec<String>,
    pub path: String,
    pub attachable_type: u8,
    pub port: u16,
}

/// Every descriptor field that must be text is valid UTF-8: the name, path
/// and command bytes, and each comma-separated argument token.
pub open spec fn service_text_ok(s: SpecService) -> bool {
    &&& valid_utf8(s.name)
    &&& valid_utf8(s.path)
    &&& valid_utf8(s.cmd)
    &&& forall|i: int|
        0 <= i < split_on(s.args, 44).len() ==> valid_utf8(#[trigger] split_on(s.args, 44)[i])
}

impl Attachable {
    /// Builds an entry from already-decoded plain values, as the
    /// configuration loader supplies them, giving it a fresh id.
    pub fn new(
        name: String,
        cmd: String,
        cmd_args: Vec<String>,
        path: String,
        attachable_type: u8,
        port: u16,
    ) -> (a: Attachable)
        ensures
            a.name == name,
            a.cmd == cmd,
            a.cmd_args == cmd_args,
            a.path == path,
            a.attachable_type == attachable_type,
            a.port == port,
            a.id@.len() == 36,
    {
        Attachable { id: fresh_uuid_string(), name, cmd, cmd_args, path, attachable_type, port }
    }

    /// Interprets a decoded wire descriptor as a registry entry: reads the
    /// name, path and command as UTF-8 text, splits the argument string at
    /// commas into tokens read the same way, and gives the entry a fresh
    /// id. Fails exactly when some field that must be text is not valid
    /// UTF-8, and then before any process is spawned.
    pub fn try_from(service: Service) -> (r: Result<Attachable, Error>)
        ensures
            match r {
                Ok(a) => {
                    &&& service_text_ok(service@)
                    &&& a.name@ == decode_utf8(service.svc_name@)
                    &&& a.path@ == decode_utf8(service.svc_path@)
                    &&& a.cmd@ == decode_utf8(service.cmd@)
                    &&& views_of_str(a.cmd_args@) == split_on(service.cmd_args@, 44).map_values(
                        |p: Seq<u8>| decode_utf8(p),
                    )
                    &&& a.attachable_type == service.svc_type
                    &&& a.port == service.svc_port
                    &&& a.id@.len() == 36
                },
                Err(e) => e == Error::Utf8DecodeError && !service_text_ok(service@),
            },
    {
        let name = match bytes_to_utf8(&service.svc_name) {
            Some(s) => s,
            None => {
                return Err(Error::Utf8DecodeError);
            },
        };
        let path = match bytes_to_utf8(&service.svc_path) {
            Some(s) => s,
            None => {
                return Err(Error::Utf8DecodeError);
            },
        };
        let cmd = match bytes_to_utf8(&service.cmd) {
            Some(s) => s,
            None => {
                return Err(Error::Utf8DecodeError);
            },
        };
        let ghost tokens = split_on(service.cmd_args@, 44);
        let pieces = split_commas(&service.cmd_args);
        let mut cmd_args: Vec<String> = Vec::new();
        let mut i: usize = 0;
        while i < pieces.len()
            invariant
                i <= pieces@.len(),
                tokens == split_on(service.cmd_args@, 44),
                views_of(pieces@) == tokens,
                cmd_args@.len() == i,
                forall|j: int| 0 <= j < i ==> valid_utf8(#[trigger] tokens[j]),
                forall|j: int| 0 <= j < i ==> #[trigger] cmd_args@[j]@ == decode_utf8(tokens[j]),
            decreases pieces@.len() - i,
        {
            proof {
                assert(pieces@[i as int]@ == tokens[i as int]);
            }
            match bytes_to_utf8(&pieces[i]) {
                Some(s) => cmd_args.push(s),
                None => {
                    proof {
                        assert(!valid_utf8(split_on(service@.args, 44)[i as int]));
                    }
                    return Err(Error::Utf8DecodeError);
                },
            }
            i = i + 1;
        }
        proof {
            assert(views_of_str(cmd_args@) =~= tokens.map_values(|p: Seq<u8>| decode_utf8(p)));
        }
        Ok(Attachable {
            id: fresh_uuid_string(),
            name,
            path,
            cmd,
            cmd_args,
            attachable_type: service.svc_type,
            port: service.svc_port,
        })
    }
}

/// One row of the proxy gateway's routing table, derived from an
/// HTTP-routable registry entry: requests under `/route_path/...` go to the
/// service's local port.
#[derive(Clone, Debug)]
pub struct HttpAttachable {
    pub id: String,
    pub name: String,
    pub route_path: String,
    pub port: u16,
}

/// How a byte string splits at a separator byte: the separators partition
/// the bytes into tokens, and an empty string yields one empty token, so a
/// split never yields fewer than one token.
pub open spec fn split_on(b: Seq<u8>, sep: u8) -> Seq<Seq<u8>>
    decreases b.len(),
{
    if b.len() == 0 {
        seq![Seq::<u8>::empty()]
    } else if b[0] == sep {
        seq![Seq::<u8>::empty()] + split_on(b.drop_first(), sep)
    } else {
        let rest = split_on(b.drop_first(), sep);
        seq![seq![b[0]] + rest[0]] + rest.drop_first()
    }
}

/// A split yields at least one token.
pub proof fn lemma_split_on_nonempty(b: Seq<u8>, sep: u8)
    ensures
        split_on(b, sep).len() >= 1,
    decreases b.len(),
{
    if b.len() != 0 {
        lemma_split_on_nonempty(b.drop_first(), sep);
    }
}

/// Appending one byte either opens a fresh empty token (a separator) or
/// extends the last token (any other byte).
proof fn lemma_split_on_push(b: Seq<u8>, sep: u8, x: u8)
    ensures
        ({
            let p = split_on(b, sep);
            split_on(b.push(x), sep) == if x == sep {
                p.push(Seq::<u8>::empty())
            } else {
                p.update(p.len() - 1, p.last().push(x))
            }
        }),
    decreases b.len(),
{
    lemma_split_on_nonempty(b, sep);
    let p = split_on(b, sep);
    let c = b.push(x);
    if b.len() == 0 {
        assert(c.drop_first() =~= Seq::<u8>::empty());
        if x == sep {
            assert(split_on(c, sep) =~= p.push(Seq::<u8>::empty()));
        } else {
            assert(seq![c[0]] + split_on(c.drop_first(), sep)[0] =~= p.last().push(x));
            assert(split_on(c, sep) =~= p.update(p.len() - 1, p.last().push(x)));
        }
    } else {
        assert(c[0] == b[0]);
        assert(c.drop_first() =~= b.drop_first().push(x));
        lemma_split_on_push(b.drop_first(), sep, x);
        lemma_split_on_nonempty(b.drop_first(), sep);
        let rest = split_on(b.drop_first(), sep);
        let rest2 = split_on(c.drop_first(), sep);
        if b[0] == sep {
            assert(p == seq![Seq::<u8>::empty()] + rest);
            assert(split_on(c, sep) == seq![Seq::<u8>::empty()] + rest2);
            if x == sep {
                assert(seq![Seq::<u8>::empty()] + rest.push(Seq::<u8>::empty()) =~= p.push(
                    Seq::<u8>::empty(),
                ));
            } else {
                assert(p.last() == rest.last());
                assert(seq![Seq::<u8>::empty()] + rest.update(
                    rest.len() - 1,
                    rest.last().push(x),
                ) =~= p.update(p.len() - 1, p.last().push(x)));
            }
        } else {
            assert(p == seq![seq![b[0]] + rest[0]] + rest.drop_first());
            assert(split_on(c, sep) == seq![seq![b[0]] + rest2[0]] + rest2.drop_first());
            if x == sep {
                assert(rest2 == rest.push(Seq::<u8>::empty()));
                assert(rest2[0] == rest[0]);
                assert(rest2.drop_first() =~= rest.drop_first().push(Seq::<u8>::empty()));
                assert(seq![seq![b[0]] + rest[0]] + rest.drop_first().push(Seq::<u8>::empty())
                    =~= p.push(Seq::<u8>::empty()));
            } else {
                assert(rest2 == rest.update(rest.len() - 1, rest.last().push(x)));
                if rest.len() == 1 {
                    assert(rest2[0] == rest[0].push(x));
                    assert(p.last() == seq![b[0]] + rest[0]);
                    assert(seq![b[0]] + rest[0].push(x) =~= p.last().push(x));
                    assert(rest2.drop_first() =~= rest.drop_first());
                    assert(split_on(c, sep) =~= p.update(p.len() - 1, p.last().push(x)));
                } else {
                    assert(rest2[0] == rest[0]);
                    assert(p.last() == rest.last());
                    assert(rest2.drop_first() =~= rest.drop_first().update(
                        rest.len() - 2,
                        rest.last().push(x),
                    ));
                    assert(seq![seq![b[0]] + rest[0]] + rest.drop_first().update(
                        rest.len() - 2,
                        rest.last().push(x),
                    ) =~= p.update(p.len() - 1, p.last().push(x)));
                }
            }
        }
    }
}

/// The byte strings a sequence of byte vectors holds.
pub open spec fn views_of(s: Seq<Vec<u8>>) -> Seq<Seq<u8>> {
    s.map_values(|p: Vec<u8>| p@)
}

/// The texts a sequence of strings holds.
pub open spec fn views_of_str(s: Seq<String>) -> Seq<Seq<char>> {
    s.map_values(|x: String| x@)
}

/// Splits the comma-joined argument string into its argument tokens.
pub fn split_commas(bytes: &Vec<u8>) -> (r: Vec<Vec<u8>>)
    ensures
        views_of(r@) == split_on(bytes@, 44),
{
    let mut pieces: Vec<Vec<u8>> = Vec::new();
    let mut cur: Vec<u8> = Vec::new();
    let mut i: usize = 0;
    while i < bytes.len()
        invariant
            i <= bytes@.len(),
            views_of(pieces@).push(cur@) == split_on(bytes@.take(i as int), 44),
        decreases bytes@.len() - i,
    {
        let ghost prev = bytes@.take(i as int);
        let ghost old_pieces = pieces@;
        let ghost old_cur = cur@;
        let byte = bytes[i];
        if byte == 44 {
            pieces.push(cur);
            cur = Vec::new();
        } else {
            cur.push(byte);
        }
        i = i + 1;
        proof {
            assert(bytes@.take(i as int) =~= prev.push(bytes@[i - 1]));
            lemma_split_on_push(prev, 44, bytes@[i - 1]);
            let p = split_on(prev, 44);
            assert(p == views_of(old_pieces).push(old_cur));
            if bytes@[i - 1] == 44 {
                assert(views_of(pieces@).push(cur@) =~= p.push(Seq::<u8>::empty()));
            } else {
                assert(p.last() == old_cur);
                assert(views_of(pieces@).push(cur@) =~= p.update(p.len() - 1, old_cur.push(
                    bytes@[i - 1],
                )));
            }
        }
    }
    proof {
        assert(bytes@.take(bytes@.len() as int) =~= bytes@);
    }
    pieces.push(cur);
    proof {
        assert(views_of(pieces@) =~= split_on(bytes@, 44));
    }
    pieces
}

/// Relies on core::str::from_utf8: returns the text reading of exactly the
/// given bytes when they are valid UTF-8, and nothing otherwise.
#[verifier::external_body]
fn bytes_to_utf8(bytes: &Vec<u8>) -> (r: Option<String>)
    ensures
        r is Some <==> valid_utf8(bytes@),
        r matches Some(s) ==> s@ == decode_utf8(bytes@),
{
    match core::str::from_utf8(bytes.as_slice()) {
        Ok(s) => Some(s.to_owned()),
        Err(_) => None,
    }
}

/// Relies on uuid::Uuid::new_v4 and its display form: a fresh random
/// version-4 UUID rendered as the 36-character hyphenated text.
#[verifier::external_body]
fn fresh_uuid_string() -> (r: String)
    ensures
        r@.len() == 36,
{
    uuid::Uuid::new_v4().to_string()
}

/// The routing row an entry gives rise to: routed under the service's name.
pub open spec fn spec_route_of(a: Attachable) -> HttpAttachable {
    HttpAttachable { id: a.id, name: a.name, route_path: a.name, port: a.port }
}

impl HttpAttachable {
    /// Derives the routing row of one registry entry.
    pub fn try_from(value: &Attachable) -> (r: Result<HttpAttachable, Error>)
        ensures
            r == Ok::<HttpAttachable, Error>(spec_route_of(*value)),
    {
        Ok(HttpAttachable {
            id: value.id.clone(),
            name: value.name.clone(),
            port: value.port,
            route_path: value.name.clone(),
        })
    }
}

/// Marks the entries the gateway routes to.
pub open spec fn is_http_routable(a: Attachable) -> bool {
    a.attachable_type == 1
}

/// The routing table derived from a table of entries: one row per
/// HTTP-routable entry, in table order.
pub open spec fn spec_routes(s: Seq<Attachable>) -> Seq<HttpAttachable>
    decreases s.len(),
{
    if s.len() == 0 {
        Seq::empty()
    } else {
        let rest = spec_routes(s.drop_last());
        if is_http_routable(s.last()) {
            rest.push(spec_route_of(s.last()))
        } else {
            rest
        }
    }
}

/// No two entries share a name, so the name a client routes by picks one
/// service.
pub open spec fn unique_names(s: Seq<Attachable>) -> bool {
    forall|i: int, j: int| 0 <= i < j < s.len() ==> s[i].name@ != s[j].name@
}

/// Some entry carries this name.
pub open spec fn has_name(s: Seq<Attachable>, name: Seq<char>) -> bool {
    exists|i: int| 0 <= i < s.len() && s[i].name@ == name
}

/// The index of the entry carrying this name.
pub open spec fn name_index(s: Seq<Attachable>, name: Seq<char>) -> int {
    choose|i: int| 0 <= i < s.len() && s[i].name@ == name
}

/// What an attach does to the table: a new name is appended, a present name
/// is superseded in place.
pub open spec fn attach_spec(s: Seq<Attachable>, a: Attachable) -> Seq<Attachable> {
    if has_name(s, a.name@) {
        s.update(name_index(s, a.name@), a)
    } else {
        s.push(a)
    }
}

/// What a successful attach hands back to the daemon: the routing table to
/// rebuild the gateway from, and the superseded entry, if any, whose
/// process is now the caller's to tear down.
pub struct AttachUpdate {
    pub routes: Vec<HttpAttachable>,
    pub displaced: Option<Attachable>,
}

/// The registry of attached services, and the routing snapshot the
/// currently bound gateway was built from. The snapshot lags the table
/// exactly when the last rebuild failed to bind.
pub struct ServiceAttacher {
    pub services: Vec<Attachable>,
    pub gateway_routes: Vec<HttpAttachable>,
    pub gateway_running: bool,
}

impl ServiceAttacher {
    /// The registry invariant: entry names are unique.
    pub open spec fn wf(self) -> bool {
        unique_names(self.services@)
    }

    /// An empty registry with no gateway bound.
    pub fn new() -> (r: ServiceAttacher)
        ensures
            r.wf(),
            r.services@.len() == 0,
            r.gateway_routes@.len() == 0,
            !r.gateway_running,
    {
        ServiceAttacher { services: Vec::new(), gateway_routes: Vec::new(), gateway_running: false }
    }

    /// Puts an entry into the table, superseding any entry of the same
    /// name; the superseded entry is handed back so its process handle
    /// stays tracked.
    pub fn insert(&mut self, attachable: Attachable) -> (displaced: Option<Attachable>)
        requires
            old(self).wf(),
        ensures
            final(self).wf(),
            final(self).services@ == attach_spec(old(self).services@, attachable),
            final(self).gateway_routes == old(self).gateway_routes,
            final(self).gateway_running == old(self).gateway_running,
            match displaced {
                Some(d) => has_name(old(self).services@, attachable.name@)
                    && d == old(self).services@[name_index(old(self).services@, attachable.name@)],
                None => !has_name(old(self).services@, attachable.name@),
            },
    {
        let ghost s = self.services@;
        let mut i: usize = 0;
        while i < self.services.len()
            invariant
                self.services@ == s,
                old(self).services@ == s,
                unique_names(s),
                self.gateway_routes == old(self).gateway_routes,
                self.gateway_running == old(self).gateway_running,
                i <= s.len(),
                forall|j: int| 0 <= j < i ==> s[j].name@ != attachable.name@,
            decreases s.len() - i,
        {
            if self.services[i].name == attachable.name {
                self.services.push(attachable);
                let displaced = self.services.swap_remove(i);
                proof {
                    assert(s[i as int].name@ == attachable.name@);
                    assert(unique_names(s));
                    assert(has_name(s, attachable.name@));
                    assert(name_index(s, attachable.name@) == i) by {
                        let k = name_index(s, attachable.name@);
                        assert(0 <= k < s.len() && s[k].name@ == attachable.name@);
                        if k < i {
                            assert(s[k].name@ != s[i as int].name@);
                        } else if i < k {
                            assert(s[i as int].name@ != s[k].name@);
                        }
                    }
                    assert(self.services@ =~= s.update(i as int, attachable));
                    assert(unique_names(self.services@));
                }
                return Some(displaced);
            }
            i = i + 1;
        }
        self.services.push(attachable);
        proof {
            assert(!has_name(s, attachable.name@));
            assert(unique_names(self.services@));
        }
        None
    }

    /// Carries out the bookkeeping of one attach command. The daemon has
    /// already tried to spawn the service's process and reports here
    /// whether that succeeded: on failure the attach fails with
    /// `ProcessSpawnError` and the registry and routing snapshot are left
    /// exactly as they were. On success the entry goes into the table and
    /// the routing table derived from the post-insert state comes back,
    /// for the gateway to be rebuilt from before the client is
    /// acknowledged.
    pub fn attach(&mut self, attachable: Attachable, spawned: bool) -> (r: Result<
        AttachUpdate,
        Error,
    >)
        requires
            old(self).wf(),
        ensures
            final(self).wf(),
            match r {
                Ok(u) => {
                    &&& spawned
                    &&& final(self).services@ == attach_spec(old(self).services@, attachable)
                    &&& final(self).gateway_routes == old(self).gateway_routes
                    &&& final(self).gateway_running == old(self).gateway_running
                    &&& u.routes@ == spec_routes(final(self).services@)
                    &&& match u.displaced {
                        Some(d) => has_name(old(self).services@, attachable.name@) && d == old(
                            self,
                        ).services@[name_index(old(self).services@, attachable.name@)],
                        None => !has_name(old(self).services@, attachable.name@),
                    }
                },
                Err(e) => {
                    &&& !spawned
                    &&& e == Error::ProcessSpawnError
                    &&& *final(self) == *old(self)
                },
            },
    {
        if !spawned {
            return Err(Error::ProcessSpawnError);
        }
        let displaced = self.insert(attachable);
        let routes = self.http_snapshot();
        Ok(AttachUpdate { routes, displaced })
    }

    /// Records the outcome of the gateway rebuild that follows an insert.
    /// When the new gateway bound, the snapshot it serves becomes the
    /// current one; when it failed to bind, the attach reports
    /// `GatewayRebuildError`, no gateway is running, and the snapshot
    /// keeps its pre-rebuild value — the table mutation is deliberately
    /// not rolled back.
    pub fn commit_gateway(&mut self, routes: Vec<HttpAttachable>, bound: bool) -> (r: Result<
        (),
        Error,
    >)
        requires
            old(self).wf(),
        ensures
            final(self).wf(),
            final(self).services@ == old(self).services@,
            match r {
                Ok(_) => {
                    &&& bound
                    &&& final(self).gateway_routes == routes
                    &&& final(self).gateway_running
                },
                Err(e) => {
                    &&& !bound
                    &&& e == Error::GatewayRebuildError
                    &&& final(self).gateway_routes == old(self).gateway_routes
                    &&& !final(self).gateway_running
                },
            },
    {
        if bound {
            self.gateway_routes = routes;
            self.gateway_running = true;
            Ok(())
        } else {
            self.gateway_running = false;
            Err(Error::GatewayRebuildError)
        }
    }

    /// Reads off the routing table the gateway must be rebuilt from: the
    /// rows of the HTTP-routable entries, in table order.
    pub fn http_snapshot(&self) -> (routes: Vec<HttpAttachable>)
        ensures
            routes@ == spec_routes(self.services@),
    {
        let mut routes: Vec<HttpAttachable> = Vec::new();
        let mut i: usize = 0;
        while i < self.services.len()
            invariant
                i <= self.services@.len(),
                routes@ == spec_routes(self.services@.take(i as int)),
            decreases self.services@.len() - i,
        {
            let service = &self.services[i];
            if service.attachable_type == 1 {
                match HttpAttachable::try_from(service) {
                    Ok(route) => routes.push(route),
                    Err(_) => {},
                }
            }
            i = i + 1;
            proof {
                let t = self.services@.take(i as int);
                assert(t.drop_last() =~= self.services@.take(i - 1));
                assert(t.last() == self.services@[i - 1]);
            }
        }
        proof {
            assert(self.services@.take(self.services@.len() as int) =~= self.services@);
        }
        routes
    }
}

/// An attach keeps names unique, registers exactly the given entry, and
/// keeps every entry whose name it does not supersede; nothing else gets
/// in. On a fresh name it is a plain append.
pub proof fn lemma_attach_spec_unique(s: Seq<Attachable>, a: Attachable)
    requires
        unique_names(s),
    ensures
        unique_names(attach_spec(s, a)),
        attach_spec(s, a).contains(a),
        forall|x: Attachable| s.contains(x) && x.name@ != a.name@ ==> attach_spec(s, a).contains(x),
        forall|x: Attachable|
            attach_spec(s, a).contains(x) ==> x == a || (s.contains(x) && x.name@ != a.name@),
        !has_name(s, a.name@) ==> attach_spec(s, a) == s.push(a),
{
    let s2 = attach_spec(s, a);
    if has_name(s, a.name@) {
        let k = name_index(s, a.name@);
        assert(0 <= k < s.len() && s[k].name@ == a.name@);
        assert(s2 == s.update(k, a));
        assert(s2[k] == a);
        assert(unique_names(s2)) by {
            assert forall|i: int, j: int| 0 <= i < j < s2.len() implies s2[i].name@
                != s2[j].name@ by {
                if i != k && j != k {
                    assert(s2[i] == s[i] && s2[j] == s[j]);
                }
            }
        }
        assert forall|x: Attachable| s.contains(x) && x.name@ != a.name@ implies s2.contains(
            x,
        ) by {
            let i = choose|i: int| 0 <= i < s.len() && s[i] == x;
            assert(s2[i] == x);
        }
        assert forall|x: Attachable| s2.contains(x) implies x == a || (s.contains(x) && x.name@
            != a.name@) by {
            let i = choose|i: int| 0 <= i < s2.len() && s2[i] == x;
            if i != k {
                assert(s[i] == x);
                assert(s[i].name@ != s[k].name@);
            }
        }
    } else {
        assert(s2 == s.push(a));
        assert(s2[s.len() as int] == a);
        assert(unique_names(s2)) by {
            assert forall|i: int, j: int| 0 <= i < j < s2.len() implies s2[i].name@
                != s2[j].name@ by {
                if j < s.len() {
                    assert(s2[i] == s[i] && s2[j] == s[j]);
                } else {
                    assert(s2[j] == a && s2[i] == s[i]);
                    assert(!(s[i].name@ == a.name@));
                }
            }
        }
        assert forall|x: Attachable| s.contains(x) && x.name@ != a.name@ implies s2.contains(
            x,
        ) by {
            let i = choose|i: int| 0 <= i < s.len() && s[i] == x;
            assert(s2[i] == x);
        }
        assert forall|x: Attachable| s2.contains(x) implies x == a || (s.contains(x) && x.name@
            != a.name@) by {
            let i = choose|i: int| 0 <= i < s2.len() && s2[i] == x;
            if i < s.len() {
                assert(s[i] == x);
                assert(!(s[i].name@ == a.name@));
            }
        }
    }
}

/// Every HTTP-routable entry of the table has its row in the derived
/// routing table.
pub proof fn lemma_spec_routes_has(s: Seq<Attachable>, i: int)
    requires
        0 <= i < s.len(),
        is_http_routable(s[i]),
    ensures
        spec_routes(s).contains(spec_route_of(s[i])),
    decreases s.len(),
{
    let rest = spec_routes(s.drop_last());
    if i == s.len() - 1 {
        assert(spec_routes(s) == rest.push(spec_route_of(s.last())));
        assert(spec_routes(s)[rest.len() as int] == spec_route_of(s[i]));
    } else {
        assert(s.drop_last()[i] == s[i]);
        lemma_spec_routes_has(s.drop_last(), i);
        let k = choose|k: int| 0 <= k < rest.len() && rest[k] == spec_route_of(s[i]);
        assert(spec_routes(s)[k] == spec_route_of(s[i]));
    }
}

/// Linearizability of attach, sequentially stated: the registry's lock
/// serializes concurrent attaches, and in whichever order two attaches
/// under different names are serialized, afterwards both entries are in
/// the table, names are still unique, and the routing table derived from
/// the table routes each one that is HTTP-routable.
pub proof fn lemma_attach_pair_registered(s: Seq<Attachable>, a: Attachable, b: Attachable)
    requires
        unique_names(s),
        a.name@ != b.name@,
    ensures
        ({
            let s2 = attach_spec(attach_spec(s, a), b);
            &&& unique_names(s2)
            &&& s2.contains(a)
            &&& s2.contains(b)
            &&& (is_http_routable(a) ==> spec_routes(s2).contains(spec_route_of(a)))
            &&& (is_http_routable(b) ==> spec_routes(s2).contains(spec_route_of(b)))
            &&& (is_http_routable(a) ==> exists|i: int|
                0 <= i < spec_routes(s2).len() && (#[trigger] spec_routes(s2)[i]).route_path@
                    == a.name@ && spec_routes(s2)[i].port == a.port)
            &&& (is_http_routable(b) ==> exists|i: int|
                0 <= i < spec_routes(s2).len() && (#[trigger] spec_routes(s2)[i]).route_path@
                    == b.name@ && spec_routes(s2)[i].port == b.port)
        }),
{
    let s1 = attach_spec(s, a);
    let s2 = attach_spec(s1, b);
    lemma_attach_spec_unique(s, a);
    lemma_attach_spec_unique(s1, b);
    assert(s2.contains(a));
    if is_http_routable(a) {
        let i = choose|i: int| 0 <= i < s2.len() && s2[i] == a;
        lemma_spec_routes_has(s2, i);
        let k = choose|k: int|
            0 <= k < spec_routes(s2).len() && spec_routes(s2)[k] == spec_route_of(a);
        assert(spec_routes(s2)[k].route_path@ == a.name@ && spec_routes(s2)[k].port == a.port);
    }
    if is_http_routable(b) {
        let i = choose|i: int| 0 <= i < s2.len() && s2[i] == b;
        lemma_spec_routes_has(s2, i);
        let k = choose|k: int|
            0 <= k < spec_routes(s2).len() && spec_routes(s2)[k] == spec_route_of(b);
        assert(spec_routes(s2)[k].route_path@ == b.name@ && spec_routes(s2)[k].port == b.port);
    }
}

/// The serialization order of two attaches under different names does not
/// matter: either order ends with exactly the same entries in the table —
/// the two new ones, and every old entry neither of them supersedes.
pub proof fn lemma_attach_order_irrelevant(s: Seq<Attachable>, a: Attachable, b: Attachable)
    requires
        unique_names(s),
        a.name@ != b.name@,
    ensures
        forall|x: Attachable|
            attach_spec(attach_spec(s, a), b).contains(x) <==> attach_spec(
                attach_spec(s, b),
                a,
            ).contains(x),
{
    lemma_attach_spec_unique(s, a);
    lemma_attach_spec_unique(attach_spec(s, a), b);
    lemma_attach_spec_unique(s, b);
    lemma_attach_spec_unique(attach_spec(s, b), a);
    assert forall|x: Attachable|
        attach_spec(attach_spec(s, a), b).contains(x) <==> attach_spec(
            attach_spec(s, b),
            a,
        ).contains(x) by {
        let ab = attach_spec(attach_spec(s, a), b);
        let ba = attach_spec(attach_spec(s, b), a);
        if ab.contains(x) {
            if x == b {
                assert(ba.contains(x));
            } else if x == a {
                assert(x.name@ != b.name@);
                assert(attach_spec(s, b).contains(x) || x == a);
                assert(ba.contains(x));
            } else {
                assert(attach_spec(s, a).contains(x) && x.name@ != b.name@);
                assert(s.contains(x) && x.name@ != a.name@);
                assert(attach_spec(s, b).contains(x));
                assert(ba.contains(x));
            }
        }
        if ba.contains(x) {
            if x == a {
                assert(ab.contains(x));
            } else if x == b {
                assert(attach_spec(s, a).contains(x) || x == b);
                assert(ab.contains(x));
            } else {
                assert(attach_spec(s, b).contains(x) && x.name@ != a.name@);
                assert(s.contains(x) && x.name@ != b.name@);
                assert(attach_spec(s, a).contains(x));
                assert(ab.contains(x));
            }
        }
    }
}

/// Repeated attach under one name supersedes: afterwards the table has
/// exactly the later entry under that name, in the slot of the earlier
/// one, and no entry of any other name was touched.
pub proof fn lemma_attach_supersedes(s: Seq<Attachable>, a: Attachable, b: Attachable)
    requires
        unique_names(s),
        a.name@ == b.name@,
    ensures
        ({
            let s2 = attach_spec(attach_spec(s, a), b);
            &&& unique_names(s2)
            &&& s2.contains(b)
            &&& forall|i: int| 0 <= i < s2.len() && s2[i].name@ == b.name@ ==> s2[i] == b
            &&& s2.len() == attach_spec(s, a).len()
        }),
{
    let s1 = attach_spec(s, a);
    let s2 = attach_spec(s1, b);
    lemma_attach_spec_unique(s, a);
    lemma_attach_spec_unique(s1, b);
    assert(s1.contains(a));
    let ai = choose|i: int| 0 <= i < s1.len() && s1[i] == a;
    assert(s1[ai].name@ == b.name@);
    assert(has_name(s1, b.name@));
    let k = name_index(s1, b.name@);
    assert(0 <= k < s1.len() && s1[k].name@ == b.name@);
    assert(s2 == s1.update(k, b));
    assert(s2[k] == b);
    assert forall|i: int| 0 <= i < s2.len() && s2[i].name@ == b.name@ implies s2[i] == b by {
        if i != k {
            assert(s2[i] == s1[i]);
            if i < k {
                assert(s1[i].name@ != s1[k].name@);
            } else {
                assert(s1[k].name@ != s1[i].name@);
            }
        }
    }
}

} // verus!
