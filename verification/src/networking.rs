//! The request gatekeeper: the decisions taken for a request that is not
//! streamed. The embedding server reads the body, looks the cache up and
//! stores what it is told to; every decision in between is taken here.

use vstd::prelude::*;
use vstd::string::*;
use crate::cache::{key_text, CacheKey, CachedResponse};
use crate::config::{CacheConfig, SecurityConfig};
use crate::interception::{violation, Interceptor};
use crate::json::{parse_bytes, parsed_bytes, Json};
use crate::routing::{RouteRule, Router};

verus! {

/// The status code that reports a request without a route as a success.
pub const DEFAULT_NO_ROUTE_STATUS: u16 = 200;

/// The largest request body that is accepted, in bytes.
pub const BODY_LIMIT: usize = 1048576;

/// How a request ends.
#[derive(Debug)]
pub enum Outcome {
    /// The body could not be read or is over the limit.
    BadRequest,
    /// The body names a forbidden call; the message says which.
    Forbidden(String),
    /// A stored response, returned as it was stored.
    Cached(CachedResponse),
    /// The destination that the request resolves to, as text.
    Routed(String),
    /// No rule applies to the path; reported under the configured status.
    NoRoute(u16),
}

/// The mathematical value of an `Outcome`.
pub enum Verdict {
    BadRequest,
    Forbidden(Seq<char>),
    Cached(CachedResponse),
    Routed(Seq<char>),
    NoRoute(u16),
}

impl View for Outcome {
    type V = Verdict;

    open spec fn view(&self) -> Verdict {
        match self {
            Outcome::BadRequest => Verdict::BadRequest,
            Outcome::Forbidden(message) => Verdict::Forbidden(message@),
            Outcome::Cached(response) => Verdict::Cached(*response),
            Outcome::Routed(text) => Verdict::Routed(text@),
            Outcome::NoRoute(status) => Verdict::NoRoute(*status),
        }
    }
}

/// The status code that an outcome is reported with. A request without a
/// route is reported under the status that the configuration chose for it.
pub open spec fn status_of(verdict: Verdict) -> u16 {
    match verdict {
        Verdict::BadRequest => 400,
        Verdict::Forbidden(_) => 403,
        Verdict::Cached(response) => response.status,
        Verdict::Routed(_) => 200,
        Verdict::NoRoute(status) => status,
    }
}

/// The text that an outcome other than a cache hit is reported with.
pub open spec fn text_of(verdict: Verdict) -> Seq<char> {
    match verdict {
        Verdict::BadRequest => "Failed to read body"@,
        Verdict::Forbidden(message) => message,
        Verdict::Routed(text) => text,
        Verdict::NoRoute(_) => "No matching route found"@,
        Verdict::Cached(_) => Seq::empty(),
    }
}

impl Outcome {
    /// The status code to report.
    pub fn status(&self) -> (r: u16)
        ensures
            r == status_of(self@),
    {
        match self {
            Outcome::BadRequest => 400,
            Outcome::Forbidden(_) => 403,
            Outcome::Cached(response) => response.status,
            Outcome::Routed(_) => 200,
            Outcome::NoRoute(status) => *status,
        }
    }

    /// The response to send: a cache hit as it was stored, anything else as
    /// plain text under its status code.
    pub fn response(self) -> (r: CachedResponse)
        ensures
            match self@ {
                Verdict::Cached(stored) => r == stored,
                verdict => r.holds(
                    status_of(verdict),
                    "text/plain; charset=utf-8"@,
                    vstd::utf8::encode_utf8(text_of(verdict)),
                ),
            },
    {
        let status = self.status();
        let body = match self {
            Outcome::Cached(stored) => {
                return stored;
            },
            Outcome::BadRequest => "Failed to read body".as_bytes_vec(),
            Outcome::Forbidden(message) => message.as_str().as_bytes_vec(),
            Outcome::Routed(text) => text.as_str().as_bytes_vec(),
            Outcome::NoRoute(_) => "No matching route found".as_bytes_vec(),
        };
        CachedResponse::with(status, "text/plain; charset=utf-8", body)
    }
}

/// What to do with a request once its body has been read.
#[derive(Debug)]
pub enum Admission {
    /// Answer at once.
    Reject(Outcome),
    /// Look the key up in the cache, then conclude with what was found.
    Lookup(CacheKey),
    /// Caching is off: conclude without a key.
    Route,
}

/// The end of a request: the outcome to return and, on a cached route, the
/// entry to store first.
#[derive(Debug)]
pub struct Conclusion {
    pub outcome: Outcome,
    pub store: Option<(CacheKey, CachedResponse)>,
}

/// The violation that a body commits, given what the JSON parser made of it.
/// A body that is not JSON commits none.
pub open spec fn screened(names: Seq<String>, parsed: Option<Json>) -> Option<Seq<char>> {
    match parsed {
        Some(body) => violation(names, body),
        None => None,
    }
}

/// The text that describes the destination of a matched request.
pub open spec fn routed_text(rule: RouteRule) -> Seq<char> {
    "Routing request to "@ + rule.target_url@ + " (Model: "@ + rule.target_model@ + ")"@
}

/// How a request that passed the screening ends: a cache hit is returned as
/// stored, whatever the rules say; otherwise the first matching rule
/// decides.
pub open spec fn answer(state: AppState, path: Seq<char>, hit: Option<CachedResponse>) -> Verdict {
    match hit {
        Some(response) => Verdict::Cached(response),
        None => match state.router.route_of(path) {
            Some(rule) => Verdict::Routed(routed_text(rule)),
            None => Verdict::NoRoute(state.no_route_status),
        },
    }
}

/// What every request task shares.
pub struct AppState {
    pub router: Router,
    pub interceptor: Interceptor,
    pub security: SecurityConfig,
    pub caching_config: CacheConfig,
    /// The status code under which a request without a route is reported;
    /// `DEFAULT_NO_ROUTE_STATUS` keeps it a success.
    pub no_route_status: u16,
}

impl AppState {
    /// Checks a parsed body against the policy.
    pub fn screen_parsed(&self, parsed: Option<&Json>) -> (r: Result<(), String>)
        ensures
            match r {
                Ok(_) => screened(
                    self.interceptor.names(),
                    match parsed {
                        Some(body) => Some(*body),
                        None => None,
                    },
                ).is_none(),
                Err(message) => screened(
                    self.interceptor.names(),
                    match parsed {
                        Some(body) => Some(*body),
                        None => None,
                    },
                ) == Some(message@),
            },
    {
        match parsed {
            Some(body) => self.interceptor.validate_tools(body),
            None => Ok(()),
        }
    }

    /// Parses a body as JSON, best effort, and checks it against the policy.
    pub fn screen_body(&self, body: &[u8]) -> (r: Result<(), String>)
        ensures
            match r {
                Ok(_) => screened(self.interceptor.names(), parsed_bytes(body@)).is_none(),
                Err(message) => screened(self.interceptor.names(), parsed_bytes(body@)) == Some(
                    message@,
                ),
            },
    {
        let parsed = parse_bytes(body);
        self.screen_parsed(parsed.as_ref())
    }

    /// Decides what to do with a request whose body has been read; `None`
    /// stands for a body that could not be read.
    ///
    /// An unreadable or oversized body is a bad request, with nothing else
    /// done. A body that commits a violation is forbidden. Otherwise the
    /// cache is to be asked under the request's key when caching is on, and
    /// left alone when it is off.
    pub fn receive(&self, path: &str, body: Option<&[u8]>) -> (r: Admission)
        ensures
            match body {
                Some(bytes) if bytes@.len() <= BODY_LIMIT => match screened(
                    self.interceptor.names(),
                    parsed_bytes(bytes@),
                ) {
                    Some(message) => r matches Admission::Reject(Outcome::Forbidden(text))
                        && text@ == message,
                    None => if self.caching_config.enabled {
                        r matches Admission::Lookup(key) && key.0@ == key_text(path@, bytes@)
                    } else {
                        r is Route
                    },
                },
                _ => r matches Admission::Reject(Outcome::BadRequest),
            },
    {
        let bytes = match body {
            Some(bytes) => bytes,
            None => {
                return Admission::Reject(Outcome::BadRequest);
            },
        };
        if bytes.len() > BODY_LIMIT {
            return Admission::Reject(Outcome::BadRequest);
        }
        if let Err(message) = self.screen_body(bytes) {
            return Admission::Reject(Outcome::Forbidden(message));
        }
        if self.caching_config.enabled {
            Admission::Lookup(CacheKey::new(path, bytes))
        } else {
            Admission::Route
        }
    }

    /// Ends a request that passed the screening. `key` is the key that the
    /// cache was asked under, `hit` what it held.
    ///
    /// A hit is returned as stored and nothing is stored anew. On a miss the
    /// first matching rule gives the outcome, which is to be stored under the
    /// key, if there is one, as plain text; without a matching rule nothing
    /// is stored.
    pub fn conclude(&self, path: &str, key: Option<CacheKey>, hit: Option<CachedResponse>) -> (r:
        Conclusion)
        ensures
            r.outcome@ == answer(*self, path@, hit),
            match (r.outcome@, key) {
                (Verdict::Routed(text), Some(k)) => r.store matches Some(entry) && entry.0 == k
                    && entry.1.is_ok_with(
                    "text/plain; charset=utf-8"@,
                    vstd::utf8::encode_utf8(text),
                ),
                _ => r.store.is_none(),
            },
    {
        if let Some(response) = hit {
            return Conclusion { outcome: Outcome::Cached(response), store: None };
        }
        match self.router.resolve(path) {
            Some(rule) => {
                let mut text = String::from_str("Routing request to ");
                text.append(rule.target_url.as_str());
                text.append(" (Model: ");
                text.append(rule.target_model.as_str());
                text.append(")");
                let store = match key {
                    Some(k) => Some(
                        (
                            k,
                            CachedResponse::ok_with(
                                "text/plain; charset=utf-8",
                                text.as_str().as_bytes_vec(),
                            ),
                        ),
                    ),
                    None => None,
                };
                Conclusion { outcome: Outcome::Routed(text), store }
            },
            None => Conclusion { outcome: Outcome::NoRoute(self.no_route_status), store: None },
        }
    }
}

/// The outcome of a whole request whose body was read and is within the
/// limit, served against the cache contents `cache`, a map from key text to
/// stored response: a violation is forbidden before anything else; with
/// caching on, the cache is asked under the request's key; with caching
/// off, it is not asked at all.
pub open spec fn served(
    state: AppState,
    cache: Map<Seq<char>, CachedResponse>,
    path: Seq<char>,
    body: Seq<u8>,
) -> Verdict {
    match screened(state.interceptor.names(), parsed_bytes(body)) {
        Some(message) => Verdict::Forbidden(message),
        None => if state.caching_config.enabled && cache.dom().contains(key_text(path, body)) {
            answer(state, path, Some(cache[key_text(path, body)]))
        } else {
            answer(state, path, None)
        },
    }
}

/// Once a response is stored under a request's key, the same request is
/// answered with it, whatever the rules have become since: the two states
/// need only agree on the policy.
pub proof fn repeat_is_served_from_cache(
    then: AppState,
    now: AppState,
    cache: Map<Seq<char>, CachedResponse>,
    path: Seq<char>,
    body: Seq<u8>,
    stored: CachedResponse,
)
    requires
        now.caching_config.enabled,
        now.interceptor.names() == then.interceptor.names(),
        !(served(then, cache, path, body) is Forbidden),
    ensures
        served(now, cache.insert(key_text(path, body), stored), path, body) == Verdict::Cached(
            stored,
        ),
{
}

/// With caching off the cache has no say: the outcome is the same whatever
/// it holds.
pub proof fn caching_off_ignores_cache(
    state: AppState,
    cache_a: Map<Seq<char>, CachedResponse>,
    cache_b: Map<Seq<char>, CachedResponse>,
    path: Seq<char>,
    body: Seq<u8>,
)
    requires
        !state.caching_config.enabled,
    ensures
        served(state, cache_a, path, body) == served(state, cache_b, path, body),
{
}

/// A cache hit bypasses routing: the answer to a hit is the stored response,
/// whatever rules are in force when it is found.
pub proof fn hit_bypasses_routing(
    then: AppState,
    now: AppState,
    path: Seq<char>,
    response: CachedResponse,
)
    ensures
        answer(then, path, Some(response)) == Verdict::Cached(response),
        answer(now, path, Some(response)) == answer(then, path, Some(response)),
{
}

/// On a miss, a path that no rule applies to has no route, and that is
/// reported under the configured status: as a success by default.
pub proof fn unmatched_path_has_no_route(state: AppState, path: Seq<char>)
    requires
        forall|j: int|
            0 <= j < state.router.rules@.len() ==> !(#[trigger] state.router.rules@[j]).applies_to(
                path,
            ),
    ensures
        answer(state, path, None) == Verdict::NoRoute(state.no_route_status),
        status_of(answer(state, path, None)) == state.no_route_status,
        state.no_route_status == DEFAULT_NO_ROUTE_STATUS ==> status_of(answer(state, path, None))
            == 200,
{
    crate::routing::no_match_means_none(state.router.rules@, path);
}

} // verus!
