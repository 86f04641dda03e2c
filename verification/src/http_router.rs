//! Routing decisions of the reverse-proxy gateway.
//!
//! For a request path `/{name}/{rest...}` the gateway forwards the request,
//! unchanged, to `http://localhost:{port}/{rest...}`, where `port` belongs
//! to the routing-table row whose route is `name`. Everything the gateway
//! decides — how the path splits, which row it picks, and the exact target
//! URL — is computed here; the HTTP serving around it merely carries the
//! bytes.

use vstd::prelude::*;

use crate::service_attacher::HttpAttachable;
use vstd::string::StrSliceExecFns;
use vstd::string::StringExecFns;

verus! {

/// The leading path segment once the initial slash is dropped: the
/// characters up to the next slash, or all of them if none follows.
pub open spec fn path_head(p: Seq<char>) -> Seq<char>
    decreases p.len(),
{
    if p.len() == 0 {
        Seq::empty()
    } else if p[0] == '/' {
        Seq::empty()
    } else {
        seq![p[0]] + path_head(p.drop_first())
    }
}

/// What remains behind the leading segment's closing slash; empty if the
/// segment runs to the end.
pub open spec fn path_tail(p: Seq<char>) -> Seq<char>
    decreases p.len(),
{
    if p.len() == 0 {
        Seq::empty()
    } else if p[0] == '/' {
        p.drop_first()
    } else {
        path_tail(p.drop_first())
    }
}

/// Where the leading segment ends, the head is what was scanned and the
/// tail is what lies behind the slash.
proof fn lemma_path_split_at(p: Seq<char>, k: int)
    requires
        0 <= k <= p.len(),
        forall|j: int| 0 <= j < k ==> p[j] != '/',
        k < p.len() ==> p[k] == '/',
    ensures
        path_head(p) == p.take(k),
        path_tail(p) == if k < p.len() {
            p.skip(k + 1)
        } else {
            Seq::<char>::empty()
        },
    decreases p.len(),
{
    if k == 0 {
        assert(path_head(p) =~= p.take(0));
        if p.len() > 0 {
            assert(path_tail(p) =~= p.skip(1));
        }
    } else {
        let q = p.drop_first();
        assert(forall|j: int| 0 <= j < k - 1 ==> q[j] != '/');
        lemma_path_split_at(q, k - 1);
        assert(path_head(p) == seq![p[0]] + q.take(k - 1));
        assert(seq![p[0]] + q.take(k - 1) =~= p.take(k));
        if k < p.len() {
            assert(q.skip(k) =~= p.skip(k + 1));
        }
    }
}

/// Splits a request path into the service name addressed and the residual
/// path to forward: the first character (the leading slash) is dropped,
/// the next segment is the name, and whatever follows that segment's
/// closing slash is the residue.
pub fn split_request_path(path: &str) -> (r: (String, String))
    requires
        path@.len() >= 1,
    ensures
        r.0@ == path_head(path@.drop_first()),
        r.1@ == path_tail(path@.drop_first()),
{
    let n = path.unicode_len();
    let mut i: usize = 1;
    while i < n && path.get_char(i) != '/'
        invariant
            1 <= i <= n,
            n == path@.len(),
            forall|j: int| 1 <= j < i ==> path@[j] != '/',
        decreases n - i,
    {
        i = i + 1;
    }
    let name = String::from_str(path.substring_char(1, i));
    let rest = if i < n {
        String::from_str(path.substring_char(i + 1, n))
    } else {
        String::new()
    };
    proof {
        let p = path@.drop_first();
        lemma_path_split_at(p, i - 1);
        assert(p.take(i - 1) =~= path@.subrange(1, i as int));
        if i < n {
            assert(p.skip(i as int) =~= path@.subrange(i + 1, n as int));
        }
    }
    (name, rest)
}

/// The decimal digits of a number, highest first.
pub open spec fn dec_chars(n: int) -> Seq<char>
    decreases n,
{
    if n < 10 {
        seq![dec_digit(n)]
    } else {
        dec_chars(n / 10).push(dec_digit(n % 10))
    }
}

/// The character of one decimal digit.
pub open spec fn dec_digit(d: int) -> char {
    if d == 0 {
        '0'
    } else if d == 1 {
        '1'
    } else if d == 2 {
        '2'
    } else if d == 3 {
        '3'
    } else if d == 4 {
        '4'
    } else if d == 5 {
        '5'
    } else if d == 6 {
        '6'
    } else if d == 7 {
        '7'
    } else if d == 8 {
        '8'
    } else {
        '9'
    }
}

/// Appends one decimal digit.
fn push_digit(s: &mut String, d: u16)
    requires
        d < 10,
    ensures
        final(s)@ == old(s)@ + seq![dec_digit(d as int)],
{
    if d == 0 {
        proof {
            reveal_strlit("0");
            assert("0"@ =~= seq![dec_digit(0)]);
        }
        s.append("0");
    } else if d == 1 {
        proof {
            reveal_strlit("1");
            assert("1"@ =~= seq![dec_digit(1)]);
        }
        s.append("1");
    } else if d == 2 {
        proof {
            reveal_strlit("2");
            assert("2"@ =~= seq![dec_digit(2)]);
        }
        s.append("2");
    } else if d == 3 {
        proof {
            reveal_strlit("3");
            assert("3"@ =~= seq![dec_digit(3)]);
        }
        s.append("3");
    } else if d == 4 {
        proof {
            reveal_strlit("4");
            assert("4"@ =~= seq![dec_digit(4)]);
        }
        s.append("4");
    } else if d == 5 {
        proof {
            reveal_strlit("5");
            assert("5"@ =~= seq![dec_digit(5)]);
        }
        s.append("5");
    } else if d == 6 {
        proof {
            reveal_strlit("6");
            assert("6"@ =~= seq![dec_digit(6)]);
        }
        s.append("6");
    } else if d == 7 {
        proof {
            reveal_strlit("7");
            assert("7"@ =~= seq![dec_digit(7)]);
        }
        s.append("7");
    } else if d == 8 {
        proof {
            reveal_strlit("8");
            assert("8"@ =~= seq![dec_digit(8)]);
        }
        s.append("8");
    } else {
        proof {
            reveal_strlit("9");
            assert("9"@ =~= seq![dec_digit(9)]);
        }
        s.append("9");
    }
}

/// Appends a number in decimal, highest digit first.
fn push_dec(s: &mut String, n: u16)
    ensures
        final(s)@ == old(s)@ + dec_chars(n as int),
    decreases n,
{
    if n >= 10 {
        push_dec(s, n / 10);
    }
    push_digit(s, n % 10);
    proof {
        if n >= 10 {
            assert(old(s)@ + dec_chars(n as int / 10) + seq![dec_digit(n as int % 10)] =~= old(
                s,
            )@ + dec_chars(n as int));
        } else {
            assert(old(s)@ + seq![dec_digit(n as int)] =~= old(s)@ + dec_chars(n as int));
        }
    }
}

/// The URL a request is forwarded to: the service's local port, then the
/// residual path.
pub open spec fn spec_forward_url(port: u16, rest: Seq<char>) -> Seq<char> {
    "http://localhost:"@ + dec_chars(port as int) + seq!['/'] + rest
}

/// Builds the forwarding URL for a port and a residual path.
pub fn forward_url(port: u16, rest: &str) -> (u: String)
    ensures
        u@ == spec_forward_url(port, rest@),
{
    let mut u = String::from_str("http://localhost:");
    push_dec(&mut u, port);
    proof {
        reveal_strlit("/");
        assert("/"@ =~= seq!['/']);
    }
    u.append("/");
    u.append(rest);
    proof {
        assert(u@ =~= spec_forward_url(port, rest@));
    }
    u
}

/// Picks the first routing row whose route is the given name; none when no
/// row carries it.
pub fn route_for<'a>(routes: &'a Vec<HttpAttachable>, name: &String) -> (r: Option<
    &'a HttpAttachable,
>)
    ensures
        match r {
            Some(h) => exists|i: int|
                {
                    &&& 0 <= i < routes@.len()
                    &&& routes@[i] == *h
                    &&& routes@[i].route_path@ == name@
                    &&& forall|j: int| 0 <= j < i ==> routes@[j].route_path@ != name@
                },
            None => forall|i: int| 0 <= i < routes@.len() ==> routes@[i].route_path@ != name@,
        },
{
    let mut i: usize = 0;
    while i < routes.len()
        invariant
            i <= routes@.len(),
            forall|j: int| 0 <= j < i ==> routes@[j].route_path@ != name@,
        decreases routes@.len() - i,
    {
        if routes[i].route_path == *name {
            let h = &routes[i];
            proof {
                assert(0 <= i < routes@.len() && routes@[i as int] == *h && routes@[
                    i as int
                ].route_path@ == name@ && forall|j: int|
                    0 <= j < i ==> routes@[j].route_path@ != name@);
            }
            return Some(h);
        }
        i = i + 1;
    }
    None
}

/// The routing decision for one incoming request, whole: which service the
/// path addresses and, when the routing table carries it, the exact URL
/// the request must be forwarded to — built from the first matching row's
/// port and the residual path. None exactly when no row routes the name.
pub fn forward_target(routes: &Vec<HttpAttachable>, path: &str) -> (r: Option<String>)
    requires
        path@.len() >= 1,
    ensures
        ({
            let name = path_head(path@.drop_first());
            let rest = path_tail(path@.drop_first());
            match r {
                Some(u) => exists|i: int|
                    {
                        &&& 0 <= i < routes@.len()
                        &&& routes@[i].route_path@ == name
                        &&& forall|j: int| 0 <= j < i ==> routes@[j].route_path@ != name
                        &&& u@ == spec_forward_url(routes@[i].port, rest)
                    },
                None => forall|i: int| 0 <= i < routes@.len() ==> routes@[i].route_path@ != name,
            }
        }),
{
    let (name, rest) = split_request_path(path);
    match route_for(routes, &name) {
        Some(h) => Some(forward_url(h.port, rest.as_str())),
        None => None,
    }
}

} // verus!
