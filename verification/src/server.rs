//! Request handling of the queue runner's RPC server: routing,
//! authentication, query parameters and the version handshake.

use vstd::prelude::*;

use crate::protocol::messages::VersionCheckResponse;
use crate::protocol::RpcError;
use crate::text::{chars_of, concat, has_prefix, has_prefix_at, split, split_chars, str_equal,
    string_from_chars};

verus! {

// ---------------------------------------------------------------------------
// Outside functions on plain values
// ---------------------------------------------------------------------------

/// What `uuid::Uuid::parse_str` gives for a string: the UUID's 128-bit
/// value, or the text of the error where it fails.
pub uninterp spec fn uuid_parsed(s: Seq<char>) -> Result<u128, Seq<char>>;

/// What `urlencoding::decode` gives for a string: the percent-decoded text, or
/// the description of why the decoded bytes are not UTF-8.
pub uninterp spec fn url_decoded(s: Seq<char>) -> Result<Seq<char>, Seq<char>>;

/// What `urlencoding::encode` gives for a string.
pub uninterp spec fn url_encoded(s: Seq<char>) -> Seq<char>;

/// The view of a parsed UUID or the text of the error.
pub open spec fn uuid_result_view(r: Result<u128, String>) -> Result<u128, Seq<char>> {
    match r {
        Ok(v) => Ok(v),
        Err(e) => Err(e@),
    }
}

/// Calls `uuid::Uuid::parse_str` and takes the parsed UUID as a `u128`
/// (`Uuid::as_u128`), or the error as its text (`Display`). The contract
/// names the result; it claims nothing about which strings parse.
#[verifier::external_body]
fn uuid_parse(s: &str) -> (r: Result<u128, String>)
    ensures
        uuid_result_view(r) == uuid_parsed(s@),
{
    match uuid::Uuid::parse_str(s) {
        Ok(u) => Ok(u.as_u128()),
        Err(e) => Err(e.to_string()),
    }
}

/// Whether a string holds no `%`, so that there is nothing to decode.
pub open spec fn no_percent(s: Seq<char>) -> bool {
    !s.contains('%')
}

/// The view of a result whose both sides are strings.
pub open spec fn string_result_view(r: Result<String, String>) -> Result<Seq<char>, Seq<char>> {
    match r {
        Ok(v) => Ok(v@),
        Err(e) => Err(e@),
    }
}

/// Calls `urlencoding::decode`, converting the `FromUtf8Error` to its text.
///
/// The contract names the result, and claims what the crate's source shows
/// directly: a string without `%` decodes to itself.
#[verifier::external_body]
fn url_decode(s: &str) -> (r: Result<String, String>)
    ensures
        string_result_view(r) == url_decoded(s@),
        no_percent(s@) ==> (r is Ok && r.unwrap()@ == s@),
{
    match urlencoding::decode(s) {
        Ok(v) => Ok(v.into_owned()),
        Err(e) => Err(e.to_string()),
    }
}

/// Whether a character is left as it is by percent-encoding.
pub open spec fn url_unreserved(c: char) -> bool {
    ('a' <= c <= 'z') || ('A' <= c <= 'Z') || ('0' <= c <= '9') || c == '-' || c == '_' || c
        == '.' || c == '~'
}

/// Calls `urlencoding::encode`.
///
/// The contract names the result, and claims what the crate's documentation
/// states: alphanumerics and `-`, `_`, `.`, `~` are not encoded, so a string
/// made only of them encodes to itself.
#[verifier::external_body]
fn url_encode(s: &str) -> (r: String)
    ensures
        r@ == url_encoded(s@),
        (forall|i: int| 0 <= i < s@.len() ==> url_unreserved(#[trigger] s@[i])) ==> r@ == s@,
{
    urlencoding::encode(s).into_owned()
}

// ---------------------------------------------------------------------------
// Query parameters
// ---------------------------------------------------------------------------

/// The value after `prefix` in the first `&`-separated piece of `pieces` that
/// starts with it.
pub open spec fn find_param(pieces: Seq<Seq<char>>, prefix: Seq<char>) -> Option<Seq<char>>
    decreases pieces.len(),
{
    if pieces.len() == 0 {
        None
    } else if has_prefix(pieces[0], prefix) {
        Some(pieces[0].skip(prefix.len() as int))
    } else {
        find_param(pieces.drop_first(), prefix)
    }
}

/// The value of a query parameter: what follows `prefix` (such as
/// `"machine_id="`) in the first `&`-separated piece of `query` that starts
/// with it.
pub fn query_param(query: &str, prefix: &str) -> (r: Option<String>)
    ensures
        match r {
            Some(v) => find_param(split(query@, '&'), prefix@) == Some(v@),
            None => find_param(split(query@, '&'), prefix@) is None,
        },
{
    let q = chars_of(query);
    let p = chars_of(prefix);
    let pieces = split_chars(q.as_slice(), '&');
    let ghost spieces = split(query@, '&');
    let mut i: usize = 0;
    proof {
        assert(spieces.skip(0) =~= spieces);
    }
    while i < pieces.len()
        invariant
            spieces == split(query@, '&'),
            p@ == prefix@,
            pieces@.len() == spieces.len(),
            forall|k: int| 0 <= k < pieces@.len() ==> #[trigger] pieces@[k]@ == spieces[k],
            i <= pieces@.len(),
            find_param(spieces, prefix@) == find_param(spieces.skip(i as int), prefix@),
        decreases pieces.len() - i,
    {
        let piece = &pieces[i];
        proof {
            assert(spieces.skip(i as int)[0] == spieces[i as int]);
            assert(spieces.skip(i as int).drop_first() =~= spieces.skip(i + 1));
            assert(piece@.skip(0) =~= piece@);
        }
        if has_prefix_at(piece.as_slice(), 0, p.as_slice()) {
            let mut rest: Vec<char> = Vec::new();
            let mut k: usize = p.len();
            while k < piece.len()
                invariant
                    p@.len() <= k <= piece@.len(),
                    rest@ == piece@.subrange(p@.len() as int, k as int),
                decreases piece.len() - k,
            {
                rest.push(piece[k]);
                k = k + 1;
            }
            proof {
                assert(rest@ =~= piece@.skip(p@.len() as int));
            }
            return Some(string_from_chars(rest.as_slice()));
        }
        i = i + 1;
    }
    proof {
        assert(spieces.skip(pieces@.len() as int) =~= Seq::<Seq<char>>::empty());
    }
    None
}

/// The machine whose tunnel a `tunnel/recv` request asks for, from the
/// request's query: 400 when the `machine_id` parameter is missing or is not
/// a UUID.
pub fn tunnel_machine_id(query: Option<&str>) -> (r: Result<u128, RpcError>)
    ensures
        ({
            let q = match query {
                Some(q) => q@,
                None => Seq::<char>::empty(),
            };
            match find_param(split(q, '&'), "machine_id="@) {
                None => r matches Err(e) && e.code == 400 && e.message@
                    == "missing machine_id query param"@,
                Some(v) => match uuid_parsed(v) {
                    Ok(id) => r == Ok::<u128, RpcError>(id),
                    Err(_) => r matches Err(e) && e.code == 400 && e.message@
                        == "invalid machine_id"@,
                },
            }
        }),
{
    let q = match query {
        Some(q) => q,
        None => "",
    };
    proof {
        reveal_strlit("");
    }
    let value = match query_param(q, "machine_id=") {
        Some(v) => v,
        None => {
            return Err(RpcError::bad_request("missing machine_id query param".to_owned()));
        },
    };
    match uuid_parse(value.as_str()) {
        Ok(id) => Ok(id),
        Err(_) => Err(RpcError::bad_request("invalid machine_id".to_owned())),
    }
}

/// The build and the machine that a builder's request names by their UUIDs:
/// 400 when one of them is not a UUID, the build's checked first.
pub fn request_ids(build_id: &str, machine_id: &str) -> (r: Result<(u128, u128), RpcError>)
    ensures
        match uuid_parsed(build_id@) {
            Err(why) => r matches Err(e) && e.code == 400 && e.message@
                == "build_id is not a valid uuid: "@ + why,
            Ok(b) => match uuid_parsed(machine_id@) {
                Err(why) => r matches Err(e) && e.code == 400 && e.message@
                    == "machine_id is not a valid uuid: "@ + why,
                Ok(m) => r matches Ok(ids) && ids == (b, m),
            },
        },
{
    let b = match uuid_parse(build_id) {
        Ok(b) => b,
        Err(why) => {
            return Err(
                RpcError::bad_request(concat("build_id is not a valid uuid: ", why.as_str())),
            );
        },
    };
    match uuid_parse(machine_id) {
        Ok(m) => Ok((b, m)),
        Err(why) => Err(
            RpcError::bad_request(concat("machine_id is not a valid uuid: ", why.as_str())),
        ),
    }
}

/// The store path that a `stream-file` request asks for, percent-decoded from
/// the `path` parameter of its query: 400 when the parameter is missing or
/// does not decode.
pub fn stream_file_path(query: Option<&str>) -> (r: Result<String, RpcError>)
    ensures
        ({
            let q = match query {
                Some(q) => q@,
                None => Seq::<char>::empty(),
            };
            match find_param(split(q, '&'), "path="@) {
                None => r matches Err(e) && e.code == 400 && e.message@
                    == "missing path query param"@,
                Some(v) => match url_decoded(v) {
                    Ok(path) => r matches Ok(p) && p@ == path,
                    Err(why) => r matches Err(e) && e.code == 400 && e.message@
                        == "invalid path encoding: "@ + why,
                },
            }
        }),
{
    let q = match query {
        Some(q) => q,
        None => "",
    };
    proof {
        reveal_strlit("");
    }
    let value = match query_param(q, "path=") {
        Some(v) => v,
        None => {
            return Err(RpcError::bad_request("missing path query param".to_owned()));
        },
    };
    match url_decode(value.as_str()) {
        Ok(path) => Ok(path),
        Err(why) => Err(RpcError::bad_request(concat("invalid path encoding: ", why.as_str()))),
    }
}

/// Whether percent-encoding leaves every character of `s` as it is.
pub open spec fn all_unreserved(s: Seq<char>) -> bool {
    forall|i: int| 0 <= i < s.len() ==> url_unreserved(#[trigger] s[i])
}

/// The request URI with which a builder opens its receiving tunnel: its
/// query is `machine_id=` and the percent-encoded id.
pub fn tunnel_recv_uri(machine_id: &str) -> (r: String)
    ensures
        r@ == "/rpc/tunnel/recv?"@ + "machine_id="@ + url_encoded(machine_id@),
        all_unreserved(machine_id@) ==> r@ == "/rpc/tunnel/recv?"@ + "machine_id="@ + machine_id@,
{
    let encoded = url_encode(machine_id);
    let path = concat("/rpc/tunnel/recv?", "machine_id=");
    concat(path.as_str(), encoded.as_str())
}

proof fn lemma_split_without_separator(s: Seq<char>, sep: char)
    requires
        !s.contains(sep),
    ensures
        split(s, sep) == seq![s],
    decreases s.len(),
{
    if s.len() > 0 {
        let d = s.drop_last();
        assert(!d.contains(sep)) by {
            if d.contains(sep) {
                let k = choose|k: int| 0 <= k < d.len() && d[k] == sep;
                assert(s[k] == sep);
            }
        }
        lemma_split_without_separator(d, sep);
        assert(s[s.len() - 1] != sep);
        assert(d.push(s.last()) =~= s);
    } else {
        assert(s =~= Seq::<char>::empty());
    }
}

/// The machine id that a builder puts in its tunnel URI is the one that the
/// server reads from the URI's query, as long as percent-encoding leaves the
/// id as it is (as it does a UUID's text): the server takes the parameter's
/// text without decoding it.
pub proof fn lemma_tunnel_machine_id_roundtrip(machine_id: Seq<char>)
    requires
        all_unreserved(machine_id),
    ensures
        find_param(split("machine_id="@ + machine_id, '&'), "machine_id="@) == Some(machine_id),
{
    reveal_strlit("machine_id=");
    let q = "machine_id="@ + machine_id;
    assert(!q.contains('&')) by {
        if q.contains('&') {
            let k = choose|k: int| 0 <= k < q.len() && q[k] == '&';
            if k >= 11 {
                assert(q[k] == machine_id[k - 11]);
                assert(url_unreserved(machine_id[k - 11]));
            }
        }
    }
    lemma_split_without_separator(q, '&');
    assert(q.take(11) =~= "machine_id="@);
    assert(q.skip(11) =~= machine_id);
}

// ---------------------------------------------------------------------------
// Routing
// ---------------------------------------------------------------------------

/// The HTTP method of a request, as far as routing tells methods apart.
#[derive(Debug, Clone, Copy, PartialEq, Eq, Structural)]
pub enum Method {
    Get,
    Post,
    Other,
}

/// The endpoint that serves a request.
#[derive(Debug, Clone, Copy, PartialEq, Eq, Structural)]
pub enum Route {
    Health,
    CheckVersion,
    TunnelSend,
    TunnelRecv,
    BuildLog,
    BuildResult,
    StepUpdate,
    CompleteBuild,
    FetchRequisites,
    HasPath,
    StreamFile,
    StreamFiles,
    PresignedUrl,
    PresignedComplete,
    NotFound,
}

/// The route table of the RPC server.
pub open spec fn route_of(method: Method, path: Seq<char>) -> Route {
    if method == Method::Get && path == "/health"@ {
        Route::Health
    } else if method == Method::Post && path == "/rpc/check-version"@ {
        Route::CheckVersion
    } else if method == Method::Post && path == "/rpc/tunnel/send"@ {
        Route::TunnelSend
    } else if method == Method::Get && path == "/rpc/tunnel/recv"@ {
        Route::TunnelRecv
    } else if method == Method::Post && path == "/rpc/build-log"@ {
        Route::BuildLog
    } else if method == Method::Post && path == "/rpc/build-result"@ {
        Route::BuildResult
    } else if method == Method::Post && path == "/rpc/step-update"@ {
        Route::StepUpdate
    } else if method == Method::Post && path == "/rpc/complete-build"@ {
        Route::CompleteBuild
    } else if method == Method::Post && path == "/rpc/fetch-requisites"@ {
        Route::FetchRequisites
    } else if method == Method::Post && path == "/rpc/has-path"@ {
        Route::HasPath
    } else if method == Method::Get && path == "/rpc/stream-file"@ {
        Route::StreamFile
    } else if method == Method::Post && path == "/rpc/stream-files"@ {
        Route::StreamFiles
    } else if method == Method::Post && path == "/rpc/presigned-url"@ {
        Route::PresignedUrl
    } else if method == Method::Post && path == "/rpc/presigned-complete"@ {
        Route::PresignedComplete
    } else {
        Route::NotFound
    }
}

/// The endpoint for a request's method and path.
pub fn route(method: Method, path: &str) -> (r: Route)
    ensures
        r == route_of(method, path@),
{
    if method == Method::Get && str_equal(path, "/health") {
        Route::Health
    } else if method == Method::Post && str_equal(path, "/rpc/check-version") {
        Route::CheckVersion
    } else if method == Method::Post && str_equal(path, "/rpc/tunnel/send") {
        Route::TunnelSend
    } else if method == Method::Get && str_equal(path, "/rpc/tunnel/recv") {
        Route::TunnelRecv
    } else if method == Method::Post && str_equal(path, "/rpc/build-log") {
        Route::BuildLog
    } else if method == Method::Post && str_equal(path, "/rpc/build-result") {
        Route::BuildResult
    } else if method == Method::Post && str_equal(path, "/rpc/step-update") {
        Route::StepUpdate
    } else if method == Method::Post && str_equal(path, "/rpc/complete-build") {
        Route::CompleteBuild
    } else if method == Method::Post && str_equal(path, "/rpc/fetch-requisites") {
        Route::FetchRequisites
    } else if method == Method::Post && str_equal(path, "/rpc/has-path") {
        Route::HasPath
    } else if method == Method::Get && str_equal(path, "/rpc/stream-file") {
        Route::StreamFile
    } else if method == Method::Post && str_equal(path, "/rpc/stream-files") {
        Route::StreamFiles
    } else if method == Method::Post && str_equal(path, "/rpc/presigned-url") {
        Route::PresignedUrl
    } else if method == Method::Post && str_equal(path, "/rpc/presigned-complete") {
        Route::PresignedComplete
    } else {
        Route::NotFound
    }
}

/// Whether a route is served without authentication.
pub open spec fn route_is_public(r: Route) -> bool {
    r == Route::Health
}

/// The answer to a request for a path that no endpoint serves.
pub fn not_found() -> (e: RpcError)
    ensures
        e.code == 404,
        e.message@ == "not found"@,
{
    RpcError::not_found("not found".to_owned())
}

// ---------------------------------------------------------------------------
// Authentication
// ---------------------------------------------------------------------------

/// The `authorization` header of a request.
#[derive(Debug, Clone, PartialEq, Eq)]
pub enum AuthHeader {
    /// The request has no `authorization` header.
    Missing,
    /// The header is present but is not visible ASCII text.
    Unreadable,
    /// The header's text.
    Value(String),
}

/// Whether `token` is one of `tokens`.
pub open spec fn token_listed(tokens: Seq<String>, token: Seq<char>) -> bool {
    exists|i: int| 0 <= i < tokens.len() && (#[trigger] tokens[i])@ == token
}

/// The bearer token that an `authorization` header carries.
pub open spec fn bearer_token(header: AuthHeader) -> Option<Seq<char>> {
    match header {
        AuthHeader::Value(v) => if has_prefix(v@, "Bearer "@) {
            Some(v@.skip(7))
        } else {
            None
        },
        _ => None,
    }
}

/// Whether a request may use an authenticated endpoint: always when no token
/// list is configured, else when it carries a listed bearer token. Refusals
/// are 401 with "No valid auth token".
pub fn check_auth(tokens: Option<&Vec<String>>, header: &AuthHeader) -> (r: Result<(), RpcError>)
    ensures
        match tokens {
            None => r is Ok,
            Some(list) => match bearer_token(*header) {
                Some(t) => if token_listed(list@, t) {
                    r is Ok
                } else {
                    r matches Err(e) && e.code == 401 && e.message@ == "No valid auth token"@
                },
                None => r matches Err(e) && e.code == 401 && e.message@ == "No valid auth token"@,
            },
        },
{
    proof {
        reveal_strlit("Bearer ");
    }
    let list = match tokens {
        None => return Ok(()),
        Some(list) => list,
    };
    let value = match header {
        AuthHeader::Value(v) => v,
        _ => return Err(RpcError::unauthenticated("No valid auth token".to_owned())),
    };
    let v = chars_of(value.as_str());
    let prefix = chars_of("Bearer ");
    proof {
        assert(v@.skip(0) =~= v@);
    }
    if !has_prefix_at(v.as_slice(), 0, prefix.as_slice()) {
        return Err(RpcError::unauthenticated("No valid auth token".to_owned()));
    }
    let mut token_chars: Vec<char> = Vec::new();
    let mut k: usize = 7;
    while k < v.len()
        invariant
            7 <= k <= v@.len(),
            token_chars@ == v@.subrange(7, k as int),
        decreases v.len() - k,
    {
        token_chars.push(v[k]);
        k = k + 1;
    }
    proof {
        assert(token_chars@ =~= v@.skip(7));
    }
    let token = string_from_chars(token_chars.as_slice());
    proof {
        assert(prefix@ == "Bearer "@);
        assert(bearer_token(*header) == Some(token@));
    }
    let mut i: usize = 0;
    while i < list.len()
        invariant
            tokens == Some(list),
            bearer_token(*header) == Some(token@),
            i <= list@.len(),
            forall|j: int| 0 <= j < i ==> (#[trigger] list@[j])@ != token@,
        decreases list.len() - i,
    {
        if str_equal(list[i].as_str(), token.as_str()) {
            proof {
                assert((list@[i as int])@ == token@);
                assert(token_listed(list@, token@));
            }
            return Ok(());
        }
        i = i + 1;
    }
    Err(RpcError::unauthenticated("No valid auth token".to_owned()))
}

/// Admits a request: `/health` is served to anyone; every other request,
/// including one for a path that no endpoint serves, must pass the token
/// check first, and is refused as `check_auth` refuses it.
pub fn admit_request(method: Method, path: &str, tokens: Option<&Vec<String>>, header: &AuthHeader) -> (r:
    Result<Route, RpcError>)
    ensures
        route_is_public(route_of(method, path@)) ==> r == Ok::<Route, RpcError>(
            route_of(method, path@),
        ),
        !route_is_public(route_of(method, path@)) ==> match tokens {
            None => r == Ok::<Route, RpcError>(route_of(method, path@)),
            Some(list) => match bearer_token(*header) {
                Some(t) => if token_listed(list@, t) {
                    r == Ok::<Route, RpcError>(route_of(method, path@))
                } else {
                    r matches Err(e) && e.code == 401 && e.message@ == "No valid auth token"@
                },
                None => r matches Err(e) && e.code == 401 && e.message@ == "No valid auth token"@,
            },
        },
{
    let r = route(method, path);
    if r == Route::Health {
        return Ok(r);
    }
    match check_auth(tokens, header) {
        Ok(()) => Ok(r),
        Err(e) => Err(e),
    }
}

// ---------------------------------------------------------------------------
// Version handshake
// ---------------------------------------------------------------------------

/// The server's answer to a builder's version check: compatible exactly when
/// the versions are equal.
pub fn version_check_response(client_version: &str, server_version: &str) -> (r:
    VersionCheckResponse)
    ensures
        r.compatible == (client_version@ == server_version@),
        r.server_version@ == server_version@,
{
    VersionCheckResponse {
        compatible: str_equal(client_version, server_version),
        server_version: server_version.to_owned(),
    }
}

/// The builder's judgement of the server's answer: an error naming both
/// versions when they are not compatible.
pub fn check_version_compatibility(client_version: &str, response: &VersionCheckResponse) -> (r:
    Result<(), String>)
    ensures
        response.compatible ==> r is Ok,
        !response.compatible ==> (r matches Err(m) && m@ == "API version mismatch: client has "@
            + client_version@ + ", server has "@ + response.server_version@),
{
    if response.compatible {
        return Ok(());
    }
    let a = concat("API version mismatch: client has ", client_version);
    let b = concat(a.as_str(), ", server has ");
    Err(concat(b.as_str(), response.server_version.as_str()))
}

} // verus!
