//! Session client logic for the controller's Redfish session service.
//!
//! The HTTP transport itself lives in the embedding application, which
//! performs the login POST and hands the response headers to this module as
//! plain byte pairs.  Everything the protocol decides — the login endpoint,
//! the request body, and how the bearer token is read from the response —
//! is specified and verified here.  Transport failures (DNS, refused
//! connections, TLS) never reach this module: the application reports them
//! as its own error before a session exists.

use vstd::prelude::*;
use vstd::slice::slice_to_vec;
use vstd::string::StringExecFns;
use crate::json;

verus! {

/// Failure to derive a session from a login response.
#[derive(Debug, PartialEq, Eq, Structural)]
pub enum SessionError {
    /// The response carries no `x-auth-token` header.
    MissingTokenHeader,
    /// The token header's value is not printable ASCII text.
    MalformedToken,
}

/// An authenticated session: the controller's base URL and the bearer
/// token that the login response granted.  The connection itself is owned
/// by the embedding application.
pub struct IloSession {
    pub url_base: String,
    pub token: Vec<u8>,
}

/// ASCII lower-casing of one byte.
pub open spec fn lower_byte(b: u8) -> u8 {
    if 65 <= b <= 90 {
        (b + 32) as u8
    } else {
        b
    }
}

/// The bytes of the header name `x-auth-token`.
pub open spec fn spec_token_name() -> Seq<u8> {
    seq![120u8, 45, 97, 117, 116, 104, 45, 116, 111, 107, 101, 110]
}

/// Header names compare case-insensitively, as HTTP requires.
pub open spec fn name_matches(n: Seq<u8>) -> bool {
    n.len() == 12 && forall|k: int| 0 <= k < 12 ==> lower_byte(n[k]) == spec_token_name()[k]
}

/// Index of the first header whose name is `x-auth-token`, at or after `i`.
pub open spec fn find_token(h: Seq<(Vec<u8>, Vec<u8>)>, i: int) -> Option<int>
    decreases h.len() - i,
{
    if 0 <= i < h.len() {
        if name_matches(h[i].0@) {
            Some(i)
        } else {
            find_token(h, i + 1)
        }
    } else {
        None
    }
}

/// A token value must decode as printable ASCII text; anything else is
/// treated as a malformed token.
pub open spec fn visible_ascii(v: Seq<u8>) -> bool {
    forall|k: int| 0 <= k < v.len() ==> 32 <= #[trigger] v[k] <= 126
}

/// The search for the token header finds exactly the first header carrying
/// that name, and fails exactly when no header carries it.
pub proof fn lemma_find_token_first(h: Seq<(Vec<u8>, Vec<u8>)>, i: int)
    requires
        0 <= i <= h.len(),
    ensures
        match find_token(h, i) {
            Some(j) => i <= j < h.len() && name_matches(h[j].0@) && forall|k: int|
                i <= k < j ==> !name_matches(h[k].0@),
            None => forall|k: int| i <= k < h.len() ==> !name_matches(h[k].0@),
        },
    decreases h.len() - i,
{
    if i < h.len() && !name_matches(h[i].0@) {
        lemma_find_token_first(h, i + 1);
    }
}

/// A login response that carries the token header somewhere always yields
/// a token: the search cannot miss, and what it finds is the first header
/// carrying the name.  Together with the contract of `create_session` this
/// says that such a response gives a session holding that header's value,
/// or `MalformedToken` when the value is not printable ASCII.
pub proof fn lemma_token_header_found(h: Seq<(Vec<u8>, Vec<u8>)>, j: int)
    requires
        0 <= j < h.len(),
        name_matches(h[j].0@),
    ensures
        find_token(h, 0) is Some,
        0 <= find_token(h, 0)->Some_0 <= j,
        name_matches(h[find_token(h, 0)->Some_0].0@),
        forall|k: int| 0 <= k < find_token(h, 0)->Some_0 ==> !name_matches(h[k].0@),
{
    lemma_find_token_first(h, 0);
}

fn lower_byte_exec(b: u8) -> (r: u8)
    ensures
        r == lower_byte(b),
{
    if 65 <= b && b <= 90 {
        b + 32
    } else {
        b
    }
}

fn token_name_byte(k: usize) -> (b: u8)
    requires
        k < 12,
    ensures
        b == spec_token_name()[k as int],
{
    if k == 0 {
        120
    } else if k == 1 {
        45
    } else if k == 2 {
        97
    } else if k == 3 {
        117
    } else if k == 4 {
        116
    } else if k == 5 {
        104
    } else if k == 6 {
        45
    } else if k == 7 {
        116
    } else if k == 8 {
        111
    } else if k == 9 {
        107
    } else if k == 10 {
        101
    } else {
        110
    }
}

fn name_matches_from(n: &[u8], k: usize) -> (r: bool)
    requires
        n@.len() == 12,
        k <= 12,
    ensures
        r == forall|t: int| k <= t < 12 ==> lower_byte(n@[t]) == spec_token_name()[t],
    decreases 12 - k,
{
    if k == 12 {
        true
    } else {
        lower_byte_exec(n[k]) == token_name_byte(k) && name_matches_from(n, k + 1)
    }
}

fn name_matches_exec(n: &[u8]) -> (r: bool)
    ensures
        r == name_matches(n@),
{
    if n.len() != 12 {
        false
    } else {
        name_matches_from(n, 0)
    }
}

fn find_token_from(h: &Vec<(Vec<u8>, Vec<u8>)>, i: usize) -> (r: Option<usize>)
    requires
        i <= h.len(),
    ensures
        match r {
            Some(j) => find_token(h@, i as int) == Some(j as int) && j < h.len(),
            None => find_token(h@, i as int) is None,
        },
    decreases h.len() - i,
{
    if i < h.len() {
        if name_matches_exec(h[i].0.as_slice()) {
            Some(i)
        } else {
            find_token_from(h, i + 1)
        }
    } else {
        None
    }
}

fn visible_from(v: &[u8], k: usize) -> (r: bool)
    requires
        k <= v.len(),
    ensures
        r == forall|t: int| k <= t < v@.len() ==> 32 <= #[trigger] v@[t] <= 126,
    decreases v.len() - k,
{
    if k == v.len() {
        true
    } else {
        32 <= v[k] && v[k] <= 126 && visible_from(v, k + 1)
    }
}

/// Derives the authenticated session from a login response, given the
/// response headers as (name, value) byte pairs in wire order.  The token
/// is the value of the first header named `x-auth-token` (compared without
/// regard to ASCII case); if no header carries that name the login failed
/// with `MissingTokenHeader`, and if the value is not printable ASCII text
/// it failed with `MalformedToken`.
pub fn create_session(url_base: &str, headers: &Vec<(Vec<u8>, Vec<u8>)>) -> (r: Result<
    IloSession,
    SessionError,
>)
    ensures
        match r {
            Ok(s) => {
                &&& find_token(headers@, 0) is Some
                &&& visible_ascii(headers@[find_token(headers@, 0)->Some_0].1@)
                &&& s.token@ == headers@[find_token(headers@, 0)->Some_0].1@
                &&& s.url_base@ == url_base@
            },
            Err(e) => match e {
                SessionError::MissingTokenHeader => find_token(headers@, 0) is None,
                SessionError::MalformedToken => find_token(headers@, 0) is Some && !visible_ascii(
                    headers@[find_token(headers@, 0)->Some_0].1@,
                ),
            },
        },
{
    match find_token_from(headers, 0) {
        None => Err(SessionError::MissingTokenHeader),
        Some(i) => {
            let value = headers[i].1.as_slice();
            if visible_from(value, 0) {
                Ok(IloSession { url_base: url_base.to_owned(), token: slice_to_vec(value) })
            } else {
                Err(SessionError::MalformedToken)
            }
        },
    }
}

/// The login endpoint under a base URL.
pub fn login_url(base: &str) -> (r: String)
    ensures
        r@ == base@ + "/redfish/v1/SessionService/Sessions/"@,
{
    base.to_owned().concat("/redfish/v1/SessionService/Sessions/")
}

/// The bytes of the JSON key `UserName`.
pub open spec fn spec_key_username() -> Seq<u8> {
    seq![85u8, 115, 101, 114, 78, 97, 109, 101]
}

/// The bytes of the JSON key `Password`.
pub open spec fn spec_key_password() -> Seq<u8> {
    seq![80u8, 97, 115, 115, 119, 111, 114, 100]
}

/// The login request body: a JSON object giving the user name and the
/// password under the service's fixed key names, in that order.
pub open spec fn spec_login_body(user: Seq<u8>, passw: Seq<u8>) -> Seq<u8> {
    seq![123u8] + json::spec_encode_string(spec_key_username()) + seq![58u8]
        + json::spec_encode_string(user) + seq![44u8] + json::spec_encode_string(
        spec_key_password(),
    ) + seq![58u8] + json::spec_encode_string(passw) + seq![125u8]
}

fn key_username() -> (v: Vec<u8>)
    ensures
        v@ == spec_key_username(),
{
    let mut v: Vec<u8> = Vec::new();
    v.push(85);
    v.push(115);
    v.push(101);
    v.push(114);
    v.push(78);
    v.push(97);
    v.push(109);
    v.push(101);
    assert(v@ =~= spec_key_username());
    v
}

fn key_password() -> (v: Vec<u8>)
    ensures
        v@ == spec_key_password(),
{
    let mut v: Vec<u8> = Vec::new();
    v.push(80);
    v.push(97);
    v.push(115);
    v.push(115);
    v.push(119);
    v.push(111);
    v.push(114);
    v.push(100);
    assert(v@ =~= spec_key_password());
    v
}

/// Builds the login request body `{"UserName":…,"Password":…}` for the
/// given credentials, with both values JSON-escaped.
pub fn login_body(user: &[u8], passw: &[u8]) -> (r: Vec<u8>)
    ensures
        r@ == spec_login_body(user@, passw@),
{
    let mut out: Vec<u8> = Vec::new();
    out.push(123);
    let key_u = key_username();
    json::append_string(&mut out, key_u.as_slice());
    out.push(58);
    json::append_string(&mut out, user);
    out.push(44);
    let key_p = key_password();
    json::append_string(&mut out, key_p.as_slice());
    out.push(58);
    json::append_string(&mut out, passw);
    out.push(125);
    assert(out@ =~= spec_login_body(user@, passw@));
    out
}

impl IloSession {
    /// The chassis endpoint for one chassis of this session's controller.
    pub fn chassis_url(&self, chassis_id: &str) -> (r: String)
        ensures
            r@ == self.url_base@ + "/redfish/v1/Chassis/"@ + chassis_id@ + "/"@,
    {
        self.url_base.clone().concat("/redfish/v1/Chassis/").concat(chassis_id).concat("/")
    }
}

} // verus!
