//! Rewriting a request so that it goes to a backend.

use vstd::prelude::*;

use crate::uri::{Uri, UriParts, UriView};

verus! {

/// A request: its target, its body, and the rest of its head, which is carried along untouched.
pub struct Request<H, B> {
    pub head: H,
    pub uri: Uri,
    pub body: B,
}

/// The target of a rewritten request: scheme and authority of the backend, path and query of the
/// original request, and the path `/` where the original request has none.
pub open spec fn outgoing_uri(original: UriView, target: UriView) -> UriView {
    UriView {
        scheme: target.scheme,
        authority: target.authority,
        path_and_query: match original.path_and_query {
            Some(p) => Some(p),
            None => Some("/"@),
        },
    }
}

/// Sends the request to `target`, with `body` as its body.
pub fn build_outgoing<H, B>(req: Request<H, ()>, body: B, target: &Uri) -> (out: Request<H, B>)
    requires
        target@.routable(),
    ensures
        out.head == req.head,
        out.body == body,
        out.uri@ == outgoing_uri(req.uri@, target@),
        out.uri@.scheme == target@.scheme,
        out.uri@.authority == target@.authority,
        req.uri@.path_and_query is Some ==> out.uri@.path_and_query == req.uri@.path_and_query,
        req.uri@.path_and_query is None ==> out.uri@.path_and_query == Some("/"@),
        out.uri@.valid(),
{
    let mut parts: UriParts = req.uri.into_parts();
    let address: UriParts = target.clone().into_parts();
    parts.scheme = address.scheme;
    parts.authority = address.authority;
    if parts.path_and_query.is_none() {
        parts.path_and_query = Some("/".to_owned());
    }
    let uri: Uri = match Uri::from_parts(parts) {
        Ok(uri) => uri,
        Err(_) => vstd::pervasive::unreached(),
    };
    Request { head: req.head, uri, body }
}

/// Builds the request for one try on `target`. Head and body are lent, so that they are there again
/// for the next try.
pub fn rebuild<'a, H, B>(head: &'a H, uri: &Uri, body: &'a B, target: &Uri) -> (out: Request<
    &'a H,
    &'a B,
>)
    requires
        target@.routable(),
    ensures
        *out.head == *head,
        *out.body == *body,
        out.uri@ == outgoing_uri(uri@, target@),
        out.uri@.scheme == target@.scheme,
        out.uri@.authority == target@.authority,
        uri@.path_and_query is Some ==> out.uri@.path_and_query == uri@.path_and_query,
        uri@.path_and_query is None ==> out.uri@.path_and_query == Some("/"@),
        out.uri@.valid(),
{
    build_outgoing(Request { head, uri: uri.clone(), body: () }, body, target)
}

/// A rewritten target is a URI again, and requests could be rewritten to go to it.
pub proof fn outgoing_uri_is_valid(original: UriView, target: UriView)
    requires
        target.routable(),
    ensures
        outgoing_uri(original, target).valid(),
        outgoing_uri(original, target).routable(),
{
}

/// Rewriting keeps the path and query of a request that has them.
pub proof fn outgoing_uri_keeps_path(original: UriView, target: UriView)
    requires
        original.path_and_query is Some,
    ensures
        outgoing_uri(original, target).path_and_query == original.path_and_query,
{
}

/// Only the last rewriting counts: an attempt on one backend leaves no trace in the target of the
/// attempt on the next.
pub proof fn last_target_wins(original: UriView, first: UriView, second: UriView)
    ensures
        outgoing_uri(outgoing_uri(original, first), second) == outgoing_uri(original, second),
{
}

/// A rewritten target has the scheme and the authority of the address it goes to, and the path and
/// query of the request, or `/` where the request has none.
pub proof fn outgoing_uri_by_component(original: UriView, target: UriView)
    ensures
        outgoing_uri(original, target).scheme == target.scheme,
        outgoing_uri(original, target).authority == target.authority,
        original.path_and_query is Some ==> outgoing_uri(original, target).path_and_query
            == original.path_and_query,
        original.path_and_query is None ==> outgoing_uri(original, target).path_and_query == Some(
            "/"@,
        ),
{
}

} // verus!
