//! Request targets and backend addresses, taken apart into scheme, authority and path.

use vstd::prelude::*;
use vstd::string::*;

verus! {

/// What a URI consists of. The path and the query, with the `?` between them, are one component.
#[verifier::ext_equal]
pub struct UriView {
    pub scheme: Option<Seq<char>>,
    pub authority: Option<Seq<char>>,
    pub path_and_query: Option<Seq<char>>,
}

impl UriView {
    /// The combinations of components that make a URI: an absolute URI has all three, an
    /// authority alone has no path, and a relative URI has neither scheme nor authority.
    pub open spec fn valid(self) -> bool {
        if self.scheme is Some {
            self.authority is Some && self.path_and_query is Some
        } else {
            self.authority is None || self.path_and_query is None
        }
    }

    /// Requests can be rewritten to go to this address: it names both a scheme and an authority,
    /// or neither.
    pub open spec fn routable(self) -> bool {
        self.scheme is Some <==> self.authority is Some
    }

    /// The URI as text.
    pub open spec fn text(self) -> Seq<char> {
        scheme_text(self.scheme) + authority_text(self.authority) + path_text(self.path_and_query)
    }
}

/// How the scheme begins the text of a URI.
pub open spec fn scheme_text(scheme: Option<Seq<char>>) -> Seq<char> {
    match scheme {
        Some(s) => s + "://"@,
        None => Seq::empty(),
    }
}

/// How the authority appears in the text of a URI.
pub open spec fn authority_text(authority: Option<Seq<char>>) -> Seq<char> {
    match authority {
        Some(a) => a,
        None => Seq::empty(),
    }
}

/// How path and query end the text of a URI. An empty path is written as `/`.
pub open spec fn path_text(path_and_query: Option<Seq<char>>) -> Seq<char> {
    match path_and_query {
        Some(p) => if p.len() == 0 || p[0] == '?' {
            "/"@ + p
        } else {
            p
        },
        None => Seq::empty(),
    }
}

/// The characters of an optional string.
pub open spec fn chars_of(s: Option<String>) -> Option<Seq<char>> {
    match s {
        Some(s) => Some(s@),
        None => None,
    }
}

/// The components of a URI, in any combination.
#[derive(Debug)]
pub struct UriParts {
    pub scheme: Option<String>,
    pub authority: Option<String>,
    pub path_and_query: Option<String>,
}

impl View for UriParts {
    type V = UriView;

    open spec fn view(&self) -> UriView {
        UriView {
            scheme: chars_of(self.scheme),
            authority: chars_of(self.authority),
            path_and_query: chars_of(self.path_and_query),
        }
    }
}

/// A text that is not a URI.
#[derive(Debug, Clone, Copy, PartialEq, Eq, Structural)]
pub struct MalformedUri;

/// Why components do not make a URI.
#[derive(Debug, Clone, Copy, PartialEq, Eq, Structural)]
pub enum InvalidUriParts {
    /// There is a scheme but no authority.
    AuthorityMissing,
    /// There are a scheme and an authority but no path.
    PathAndQueryMissing,
    /// There are an authority and a path but no scheme.
    SchemeMissing,
}

/// The error of the `http` crate's URI parser; nothing is known of what it holds.
#[verifier::external_type_specification]
#[verifier::external_body]
pub struct ExInvalidUri(hyper::http::uri::InvalidUri);

/// What the `http` crate's URI parser makes of a text: the components, or `None` where the text
/// is rejected.
pub uninterp spec fn parsed_uri(text: Seq<char>) -> Option<UriView>;

/// `<hyper::Uri as FromStr>::from_str`, and `hyper::Uri::into_parts` to take the result apart.
///
/// Claimed: the outcome is a function of the text alone, here named `parsed_uri`, and components
/// that come out of the parser are a valid combination. Which texts are accepted, and how a text
/// is cut into components, is left to the `http` crate and not stated.
#[verifier::external_body]
fn parse_parts(text: &str) -> (r: Result<UriParts, hyper::http::uri::InvalidUri>)
    ensures
        match r {
            Ok(parts) => parsed_uri(text@) == Some(parts@) && parts@.valid(),
            Err(_) => parsed_uri(text@) is None,
        },
{
    match text.parse::<hyper::Uri>() {
        Ok(uri) => {
            let parts = uri.into_parts();
            Ok(UriParts {
                scheme: parts.scheme.map(|s| s.as_str().to_owned()),
                authority: parts.authority.map(|a| a.as_str().to_owned()),
                path_and_query: parts.path_and_query.map(|p| p.as_str().to_owned()),
            })
        },
        Err(e) => Err(e),
    }
}

/// A copy of an optional string.
fn clone_component(s: &Option<String>) -> (r: Option<String>)
    ensures
        chars_of(r) == chars_of(*s),
{
    match s {
        Some(s) => Some(s.clone()),
        None => None,
    }
}

/// A URI: components in a valid combination.
#[derive(Debug)]
pub struct Uri {
    parts: UriParts,
}

impl View for Uri {
    type V = UriView;

    closed spec fn view(&self) -> UriView {
        self.parts@
    }
}

impl Uri {
    #[verifier::type_invariant]
    spec fn well_formed(self) -> bool {
        self.parts@.valid()
    }

    /// Reads a URI from text.
    pub fn parse(text: &str) -> (r: Result<Uri, MalformedUri>)
        ensures
            match r {
                Ok(uri) => parsed_uri(text@) == Some(uri@) && uri@.valid(),
                Err(_) => parsed_uri(text@) is None,
            },
    {
        match parse_parts(text) {
            Ok(parts) => Ok(Uri { parts }),
            Err(_) => Err(MalformedUri),
        }
    }

    /// Puts a URI together, if the components are a valid combination.
    pub fn from_parts(parts: UriParts) -> (r: Result<Uri, InvalidUriParts>)
        ensures
            r is Ok <==> if parts.scheme is Some {
                parts.authority is Some && parts.path_and_query is Some
            } else {
                parts.authority is None || parts.path_and_query is None
            },
            match r {
                Ok(uri) => parts@.valid() && uri@ == parts@,
                Err(InvalidUriParts::AuthorityMissing) => parts@.scheme is Some
                    && parts@.authority is None,
                Err(InvalidUriParts::PathAndQueryMissing) => parts@.scheme is Some
                    && parts@.authority is Some && parts@.path_and_query is None,
                Err(InvalidUriParts::SchemeMissing) => parts@.scheme is None
                    && parts@.authority is Some && parts@.path_and_query is Some,
            },
    {
        if parts.scheme.is_some() {
            if parts.authority.is_none() {
                return Err(InvalidUriParts::AuthorityMissing);
            }
            if parts.path_and_query.is_none() {
                return Err(InvalidUriParts::PathAndQueryMissing);
            }
        } else if parts.authority.is_some() && parts.path_and_query.is_some() {
            return Err(InvalidUriParts::SchemeMissing);
        }
        Ok(Uri { parts })
    }

    /// Takes the URI apart.
    pub fn into_parts(self) -> (parts: UriParts)
        ensures
            parts@ == self@,
            parts@.valid(),
    {
        proof {
            use_type_invariant(&self);
        }
        self.parts
    }

    /// Whether requests can be rewritten to go to this address.
    pub fn is_routable(&self) -> (b: bool)
        ensures
            b == self@.routable(),
            b == (self@.scheme is Some == self@.authority is Some),
    {
        self.parts.scheme.is_some() == self.parts.authority.is_some()
    }

    /// The URI as text.
    pub fn to_string(&self) -> (text: String)
        ensures
            text@ == self@.text(),
    {
        let mut text: String = String::new();
        if let Some(scheme) = &self.parts.scheme {
            text.append(scheme.as_str());
            text.append("://");
        }
        assert(text@ == scheme_text(self@.scheme));
        if let Some(authority) = &self.parts.authority {
            text.append(authority.as_str());
        }
        assert(text@ == scheme_text(self@.scheme) + authority_text(self@.authority));
        if let Some(path_and_query) = &self.parts.path_and_query {
            let p: &str = path_and_query.as_str();
            if p.unicode_len() == 0 || p.get_char(0) == '?' {
                text.append("/");
            }
            text.append(p);
        }
        assert(text@ == self@.text());
        text
    }
}

impl Clone for Uri {
    fn clone(&self) -> (r: Uri)
        ensures
            r@ == self@,
    {
        proof {
            use_type_invariant(self);
        }
        Uri {
            parts: UriParts {
                scheme: clone_component(&self.parts.scheme),
                authority: clone_component(&self.parts.authority),
                path_and_query: clone_component(&self.parts.path_and_query),
            },
        }
    }
}

/// Components make a URI exactly if all three are there, or the scheme is missing together with the
/// authority, the path or both. Requests can be sent to it exactly if it has both a scheme and an
/// authority, or neither.
pub proof fn valid_combinations(u: UriView)
    ensures
        u.valid() <==> {
            ||| u.scheme is Some && u.authority is Some && u.path_and_query is Some
            ||| u.scheme is None && u.authority is None
            ||| u.scheme is None && u.path_and_query is None
        },
        u.routable() <==> {
            ||| u.scheme is Some && u.authority is Some
            ||| u.scheme is None && u.authority is None
        },
{
}

/// The text of a URI is made of its components, one after the other: the scheme with `://` behind
/// it, the authority, the path and query. A component that is missing leaves no trace, and a `/`
/// stands for a path that is empty.
pub proof fn text_is_made_of_the_components(u: UriView)
    ensures
        ({
            let front = match (u.scheme, u.authority) {
                (Some(s), Some(a)) => s + "://"@ + a,
                (Some(s), None) => s + "://"@,
                (None, Some(a)) => a,
                (None, None) => seq![],
            };
            match u.path_and_query {
                None => u.text() == front,
                Some(p) => {
                    &&& p.len() == 0 ==> u.text() == front + "/"@
                    &&& p.len() > 0 && p[0] == '?' ==> u.text() == front + "/"@ + p
                    &&& p.len() > 0 && p[0] != '?' ==> u.text() == front + p
                },
            }
        }),
{
    let front = match (u.scheme, u.authority) {
        (Some(s), Some(a)) => s + "://"@ + a,
        (Some(s), None) => s + "://"@,
        (None, Some(a)) => a,
        (None, None) => seq![],
    };
    assert(scheme_text(u.scheme) + authority_text(u.authority) == front);
    match u.path_and_query {
        None => {
            assert(u.text() == front);
        },
        Some(p) => {
            assert(p.len() == 0 ==> u.text() == front + "/"@);
            assert(p.len() > 0 && p[0] == '?' ==> u.text() == front + "/"@ + p);
        },
    }
}

/// Components are seen as the characters that they hold.
pub proof fn parts_show_their_components(parts: UriParts)
    ensures
        match parts.scheme {
            Some(s) => parts@.scheme == Some(s@),
            None => parts@.scheme is None,
        },
        match parts.authority {
            Some(s) => parts@.authority == Some(s@),
            None => parts@.authority is None,
        },
        match parts.path_and_query {
            Some(s) => parts@.path_and_query == Some(s@),
            None => parts@.path_and_query is None,
        },
{
}

} // verus!
