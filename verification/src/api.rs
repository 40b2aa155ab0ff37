//! The computational side of the dispatch client.
//!
//! The network call itself is the host's: it builds the HTTP client, sets
//! the authorization and content-type headers, and posts.  What is verified
//! here is what the call is made of: the base URL resolution and its
//! normalization, the endpoint path join, and the request body.
use vstd::prelude::*;

use crate::events::Event;
use crate::events::encode_event;
use crate::events::sp_encode_event;
use crate::json::chars_of;
use crate::json::string_from_chars;

verus! {

pub const DEFAULT_API_URL: &'static str = "https://api.cls.dev/";

/// A URL made to end in a slash.
pub open spec fn sp_normalize_url(u: Seq<char>) -> Seq<char> {
    if u.len() > 0 && u[u.len() - 1] == '/' {
        u
    } else {
        u + seq!['/']
    }
}

/// A path with its leading slash removed, so joining never doubles one.
pub open spec fn sp_strip_slash(p: Seq<char>) -> Seq<char> {
    if p.len() > 0 && p[0] == '/' {
        p.drop_first()
    } else {
        p
    }
}

fn normalize_url(u: String) -> (r: String)
    ensures
        r@ == sp_normalize_url(u@),
{
    let cs = chars_of(u.as_str());
    if cs.len() > 0 && cs[cs.len() - 1] == '/' {
        u
    } else {
        let mut r = u;
        r.append("/");
        proof {
            reveal_strlit("/");
            assert("/"@ =~= seq!['/']);
        }
        r
    }
}

/// The collection endpoint's base URL: the environment override when set,
/// else the default, always ending in a slash.
pub fn api_base_url(env_url: Option<&String>) -> (r: String)
    ensures
        r@ == sp_normalize_url(
            match crate::settings::opt_str_view(env_url) {
                Some(u) => u,
                None => DEFAULT_API_URL@,
            },
        ),
{
    match env_url {
        Some(u) => normalize_url(u.clone()),
        None => normalize_url(DEFAULT_API_URL.to_owned()),
    }
}

/// One endpoint's full URL: the base, the path without its leading slash,
/// a closing slash.
pub fn post_url(base: &str, path: &str) -> (r: String)
    ensures
        r@ == sp_normalize_url(base@ + sp_strip_slash(path@)),
{
    let pc = chars_of(path);
    let stripped: String = if pc.len() > 0 && pc[0] == '/' {
        let rest = crate::json::copy_range(&pc, 1, pc.len());
        assert(rest@ =~= path@.drop_first());
        string_from_chars(&rest)
    } else {
        path.to_owned()
    };
    let mut url = base.to_owned();
    url.append(stripped.as_str());
    normalize_url(url)
}

/// The body of one event's POST: the record as a JSON object.
pub fn post_event_body(e: &Event) -> (r: String)
    ensures
        r@ == sp_encode_event(e@),
{
    encode_event(e)
}

} // verus!
