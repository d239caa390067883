//! The user interface, which is fetched from elsewhere and passed on.

use vstd::prelude::*;

use crate::order;
use crate::reply;
use crate::tables;
use crate::text;

verus! {

/// A plain answer.
#[derive(Debug)]
pub struct TextReply {
    pub status: u16,
    pub text: String,
}

/// What to do with a request that is none of the interface of the server.
#[derive(Debug)]
pub enum Fallback {
    Answer(TextReply),
    /// Fetch this address and pass on what comes.
    Fetch(String),
}

pub enum FallbackV {
    Answer { status: u16, text: Seq<char> },
    Fetch(Seq<char>),
}

impl View for Fallback {
    type V = FallbackV;

    open spec fn view(&self) -> FallbackV {
        match *self {
            Fallback::Answer(r) => FallbackV::Answer { status: r.status, text: r.text@ },
            Fallback::Fetch(url) => FallbackV::Fetch(url@),
        }
    }
}

/// A header of an answer that is passed on.
#[derive(Debug)]
pub struct Header {
    pub name: String,
    pub value: Vec<u8>,
}

pub struct HeaderV {
    pub name: Seq<char>,
    pub value: Seq<u8>,
}

impl View for Header {
    type V = HeaderV;

    open spec fn view(&self) -> HeaderV {
        HeaderV { name: self.name@, value: self.value@ }
    }
}

/// What follows from a request, given where the user interface is fetched from, the
/// method, and the path with its query.
pub open spec fn passed_on(
    origin: Option<Seq<char>>,
    method: Seq<char>,
    path: Option<Seq<char>>,
) -> FallbackV {
    match origin {
        None => FallbackV::Answer { status: reply::NOT_FOUND, text: "API only"@ },
        Some(o) => if method != "GET"@ && method != "HEAD"@ {
            FallbackV::Answer { status: reply::METHOD_NOT_ALLOWED, text: "GET"@ }
        } else {
            FallbackV::Fetch(
                o + match path {
                    Some(p) => p,
                    None => "/"@,
                },
            )
        },
    }
}

fn answer(status: u16, text: &str) -> (r: Fallback)
    ensures
        r@ == (FallbackV::Answer { status, text: text@ }),
{
    Fallback::Answer(TextReply { status, text: text.to_string() })
}

/// What to do with a request that is none of the interface of the server.
pub fn fallback(origin: Option<&str>, method: &str, path: Option<&str>) -> (r: Fallback)
    ensures
        r@ == passed_on(tables::opt_ref(origin), method@, tables::opt_ref(path)),
{
    match origin {
        None => answer(reply::NOT_FOUND, "API only"),
        Some(o) => {
            if !text::same(method, "GET") && !text::same(method, "HEAD") {
                return answer(reply::METHOD_NOT_ALLOWED, "GET");
            }
            let p = match path {
                Some(p) => p,
                None => "/",
            };
            Fallback::Fetch(text::concat(o, p))
        },
    }
}

/// The status to pass on: a number that is no status becomes that of a bad gateway.
pub fn relay_status(status: u16) -> (r: u16)
    ensures
        r == if 100 <= status <= 999 {
            status
        } else {
            reply::BAD_GATEWAY
        },
{
    if 100 <= status && status <= 999 {
        status
    } else {
        reply::BAD_GATEWAY
    }
}

/// The headers that are not passed on, because they concern one connection, or because
/// what they say of the body does not hold of what is sent.
pub open spec fn skipped() -> Seq<Seq<char>> {
    seq![
        "connection"@,
        "keep-alive"@,
        "proxy-authenticate"@,
        "proxy-authorization"@,
        "te"@,
        "trailers"@,
        "transfer-encoding"@,
        "content-encoding"@,
        "content-length"@,
        "host"@,
    ]
}

/// Whether a header is not passed on.
fn is_skipped(name: &str) -> (r: bool)
    ensures
        r == skipped().contains(name@),
{
    let r = text::same(name, "connection") || text::same(name, "keep-alive") || text::same(
        name,
        "proxy-authenticate",
    ) || text::same(name, "proxy-authorization") || text::same(name, "te") || text::same(
        name,
        "trailers",
    ) || text::same(name, "transfer-encoding") || text::same(name, "content-encoding")
        || text::same(name, "content-length") || text::same(name, "host");
    proof {
        let s = skipped();
        assert(s[0] == "connection"@ && s[1] == "keep-alive"@ && s[2] == "proxy-authenticate"@
            && s[3] == "proxy-authorization"@ && s[4] == "te"@ && s[5] == "trailers"@ && s[6]
            == "transfer-encoding"@ && s[7] == "content-encoding"@ && s[8] == "content-length"@
            && s[9] == "host"@);
    }
    r
}

/// The headers to pass on, in their order.
pub open spec fn passing(headers: Seq<HeaderV>) -> Seq<HeaderV> {
    headers.filter(|h: HeaderV| !skipped().contains(h.name))
}

/// A header is passed on exactly where it is not one of those that are skipped.
pub proof fn only_skipped_headers_are_lost(headers: Seq<HeaderV>, h: HeaderV)
    ensures
        passing(headers).contains(h) == (headers.contains(h) && !skipped().contains(h.name)),
{
    order::filter_keeps(headers, |h: HeaderV| !skipped().contains(h.name), h);
}

/// The headers to pass on.
pub fn relay_headers(headers: Vec<Header>) -> (r: Vec<Header>)
    ensures
        order::rows(r@) == passing(order::rows(headers@)),
{
    let ghost p = |h: HeaderV| !skipped().contains(h.name);
    let ghost all = order::rows(headers@);
    let mut kept: Vec<Header> = Vec::new();
    let mut i: usize = 0;
    proof {
        reveal(Seq::filter);
        assert(all.take(0).filter(p) =~= Seq::<HeaderV>::empty());
        assert(order::rows(kept@) =~= Seq::<HeaderV>::empty());
    }
    while i < headers.len()
        invariant
            i <= headers@.len(),
            p == (|h: HeaderV| !skipped().contains(h.name)),
            all == order::rows(headers@),
            order::rows(kept@) == all.take(i as int).filter(p),
        decreases headers@.len() - i,
    {
        let h = &headers[i];
        assert(all[i as int] == h@);
        proof {
            assert(all.take(i + 1) =~= all.take(i as int).push(h@));
            order::lemma_filter_push(all.take(i as int), h@, p);
        }
        if !is_skipped(h.name.as_str()) {
            let ghost before = kept@;
            kept.push(
                Header {
                    name: h.name.clone(),
                    value: vstd::slice::slice_to_vec(h.value.as_slice()),
                },
            );
            assert(order::rows(kept@) =~= order::rows(before).push(h@));
        }
        i = i + 1;
    }
    assert(all.take(i as int) =~= all);
    kept
}

/// The answer when an answer could not be passed on.
pub fn relay_failure() -> (r: TextReply)
    ensures
        r.status == reply::BAD_GATEWAY,
        r.text@ == "ui proxy"@,
{
    TextReply { status: reply::BAD_GATEWAY, text: "ui proxy".to_string() }
}

/// The page that says that the user interface could not be fetched from `origin`.
pub open spec fn apology(origin: Seq<char>, complaint: Seq<char>) -> Seq<char> {
    "<!doctype html><meta charset=utf-8><title>Works</title>"@
        + "<body style='font:16px/1.4 system-ui;background:#0b1220;color:#e8eefc;padding:48px'>"@
        + "<p>This is a Works server, but it could not load the UI from "@ + origin + ".</p><p>"@
        + complaint + "</p>"@
        + "<p>API is up at <a href='/.well-known/works.json'>/.well-known/works.json</a>.</p>"@
}

/// The page that says that the user interface could not be fetched from `origin`.
pub fn error_page(origin: &str, complaint: &str) -> (r: String)
    ensures
        r@ == apology(origin@, complaint@),
{
    let mut s = "<!doctype html><meta charset=utf-8><title>Works</title>".to_string();
    s.append("<body style='font:16px/1.4 system-ui;background:#0b1220;color:#e8eefc;padding:48px'>");
    s.append("<p>This is a Works server, but it could not load the UI from ");
    s.append(origin);
    s.append(".</p><p>");
    s.append(complaint);
    s.append("</p>");
    s.append("<p>API is up at <a href='/.well-known/works.json'>/.well-known/works.json</a>.</p>");
    s
}

/// A request that is none of the interface of the server is answered here where no user
/// interface is served or where it asks for more than to read; any other is fetched from
/// the origin, under its own path.
pub proof fn reads_are_fetched_from_the_origin(
    origin: Option<Seq<char>>,
    method: Seq<char>,
    path: Option<Seq<char>>,
)
    ensures
        origin is None ==> passed_on(origin, method, path) == (FallbackV::Answer {
            status: 404,
            text: "API only"@,
        }),
        origin is Some && method != "GET"@ && method != "HEAD"@ ==> passed_on(origin, method, path)
            == (FallbackV::Answer { status: 405, text: "GET"@ }),
        origin is Some && (method == "GET"@ || method == "HEAD"@) ==> (passed_on(
            origin,
            method,
            path,
        ) matches FallbackV::Fetch(url) && origin->0.is_prefix_of(url) && url.skip(
            origin->0.len() as int,
        ) == match path {
            Some(p) => p,
            None => "/"@,
        }),
{
    if let Some(o) = origin {
        let p = match path {
            Some(p) => p,
            None => "/"@,
        };
        assert((o + p).skip(o.len() as int) =~= p);
        assert((o + p).take(o.len() as int) =~= o);
    }
}

/// Whether a header concerns one connection only, or the body as it was sent.
pub open spec fn concerns_one_connection(name: Seq<char>) -> bool {
    ||| name == "connection"@
    ||| name == "keep-alive"@
    ||| name == "proxy-authenticate"@
    ||| name == "proxy-authorization"@
    ||| name == "te"@
    ||| name == "trailers"@
    ||| name == "transfer-encoding"@
    ||| name == "content-encoding"@
    ||| name == "content-length"@
    ||| name == "host"@
}

/// Headers are passed on one by one and in their order, as they are, but for those that
/// concern one connection.
pub proof fn headers_are_passed_on_one_by_one(a: Seq<HeaderV>, h: HeaderV, b: Seq<HeaderV>)
    ensures
        passing(a + b) == passing(a) + passing(b),
        passing(Seq::<HeaderV>::empty()).len() == 0,
        concerns_one_connection(h.name) ==> passing(seq![h]).len() == 0,
        !concerns_one_connection(h.name) ==> passing(seq![h]) == seq![h],
{
    let p = |h: HeaderV| !skipped().contains(h.name);
    let none = Seq::<HeaderV>::empty();
    reveal(Seq::filter);
    assert(none.filter(p) =~= none);
    assert(none.push(h) =~= seq![h]);
    order::lemma_filter_push(none, h, p);
    let s = skipped();
    assert(s[0] == "connection"@ && s[1] == "keep-alive"@ && s[2] == "proxy-authenticate"@ && s[3]
        == "proxy-authorization"@ && s[4] == "te"@ && s[5] == "trailers"@ && s[6]
        == "transfer-encoding"@ && s[7] == "content-encoding"@ && s[8] == "content-length"@ && s[9]
        == "host"@);
    assert(skipped().contains(h.name) <==> concerns_one_connection(h.name));
    order::lemma_filter_parts(a, b, p);
}

/// The page that apologises names the origin and tells what went wrong, each as it is.
pub proof fn apologies_say_what_went_wrong(origin: Seq<char>, complaint: Seq<char>)
    ensures
        exists|lead: Seq<char>, mid: Seq<char>, tail: Seq<char>|
            #![trigger lead + origin + mid + complaint + tail]
            {
                &&& apology(origin, complaint) == lead + origin + mid + complaint + tail
                &&& lead == "<!doctype html><meta charset=utf-8><title>Works</title>"@
                    + "<body style='font:16px/1.4 system-ui;background:#0b1220;color:#e8eefc;padding:48px'>"@
                    + "<p>This is a Works server, but it could not load the UI from "@
                &&& mid == ".</p><p>"@
                &&& tail == "</p>"@
                    + "<p>API is up at <a href='/.well-known/works.json'>/.well-known/works.json</a>.</p>"@
            },
{
    let lead = "<!doctype html><meta charset=utf-8><title>Works</title>"@
        + "<body style='font:16px/1.4 system-ui;background:#0b1220;color:#e8eefc;padding:48px'>"@
        + "<p>This is a Works server, but it could not load the UI from "@;
    let mid = ".</p><p>"@;
    let tail = "</p>"@
        + "<p>API is up at <a href='/.well-known/works.json'>/.well-known/works.json</a>.</p>"@;
    assert(apology(origin, complaint) =~= lead + origin + mid + complaint + tail);
}

/// An answer and a header are told with all that they hold.
pub proof fn relayed_things_are_told_field_by_field(f: Fallback, h: Header)
    ensures
        f matches Fallback::Answer(r) ==> f@ == (FallbackV::Answer {
            status: r.status,
            text: r.text@,
        }),
        f matches Fallback::Fetch(url) ==> f@ == FallbackV::Fetch(url@),
        h@.name == h.name@ && h@.value == h.value@,
{
}

} // verus!
