//! Content-addressed cache keys and the responses stored under them.

use vstd::prelude::*;
use vstd::string::*;
use vstd::utf8::*;
use sha2::Digest;

verus! {

/// The SHA-256 digest of `data`.
pub uninterp spec fn sha256(data: Seq<u8>) -> Seq<u8>;

/// The lower-case hexadecimal digit of `n`, for `n` below sixteen.
pub open spec fn hex_digit(n: int) -> char {
    seq!['0', '1', '2', '3', '4', '5', '6', '7', '8', '9', 'a', 'b', 'c', 'd', 'e', 'f'][n]
}

/// `bytes` in lower-case hexadecimal, two digits per byte, high digit first.
pub open spec fn hex_text(bytes: Seq<u8>) -> Seq<char> {
    Seq::new(
        2 * bytes.len(),
        |i: int|
            if i % 2 == 0 {
                hex_digit(bytes[i / 2] as int / 16)
            } else {
                hex_digit(bytes[i / 2] as int % 16)
            },
    )
}

/// The eight bytes of `n`, most significant first.
pub open spec fn length_bytes(n: u64) -> Seq<u8> {
    seq![
        ((n >> 56) & 0xff) as u8,
        ((n >> 48) & 0xff) as u8,
        ((n >> 40) & 0xff) as u8,
        ((n >> 32) & 0xff) as u8,
        ((n >> 24) & 0xff) as u8,
        ((n >> 16) & 0xff) as u8,
        ((n >> 8) & 0xff) as u8,
        (n & 0xff) as u8,
    ]
}

/// A request as one byte sequence that keeps its two parts apart: the
/// length of the path's UTF-8 bytes in eight bytes, then those bytes, then
/// the body.
pub open spec fn framed(path: Seq<char>, body: Seq<u8>) -> Seq<u8> {
    length_bytes(encode_utf8(path).len() as u64) + encode_utf8(path) + body
}

/// The key text for a request: the hexadecimal SHA-256 digest of the framed
/// request.
pub open spec fn key_text(path: Seq<char>, body: Seq<u8>) -> Seq<char> {
    hex_text(sha256(framed(path, body)))
}

/// The eight bytes of `n`, most significant first.
fn length_prefix(n: u64) -> (r: Vec<u8>)
    ensures
        r@ == length_bytes(n),
{
    let mut bytes: Vec<u8> = Vec::new();
    bytes.push(((n >> 56) & 0xff) as u8);
    bytes.push(((n >> 48) & 0xff) as u8);
    bytes.push(((n >> 40) & 0xff) as u8);
    bytes.push(((n >> 32) & 0xff) as u8);
    bytes.push(((n >> 24) & 0xff) as u8);
    bytes.push(((n >> 16) & 0xff) as u8);
    bytes.push(((n >> 8) & 0xff) as u8);
    bytes.push((n & 0xff) as u8);
    assert(bytes@ =~= length_bytes(n));
    bytes
}

/// Trusted: `sha2::Sha256`, fed `first` and then `second`. The digest is that
/// of the two inputs joined, and is 32 bytes long.
#[verifier::external_body]
fn digest_of(first: &[u8], second: &[u8]) -> (r: Vec<u8>)
    ensures
        r@ == sha256(first@ + second@),
        r@.len() == 32,
{
    let mut hasher = sha2::Sha256::new();
    hasher.update(first);
    hasher.update(second);
    hasher.finalize().to_vec()
}

/// Trusted: `hex::encode`. Each byte becomes two lower-case hexadecimal
/// digits.
#[verifier::external_body]
fn hex_of(bytes: &[u8]) -> (r: String)
    ensures
        r@ == hex_text(bytes@),
{
    hex::encode(bytes)
}

/// A deterministic digest of a request's path and body.
#[derive(Debug, Clone, PartialEq, Eq, Hash)]
pub struct CacheKey(pub String);

impl CacheKey {
    /// The key of a request: 64 hexadecimal digits that depend on the path
    /// and the body alone. The digest is taken of the framed request, so
    /// that no byte can pass from the path to the body unnoticed.
    pub fn new(path: &str, body: &[u8]) -> (r: Self)
        ensures
            r.0@ == key_text(path@, body@),
            r.0@.len() == 64,
    {
        let name = path.as_bytes();
        let mut head = length_prefix(name.len() as u64);
        head.extend_from_slice(name);
        assert(head@ =~= length_bytes(encode_utf8(path@).len() as u64) + encode_utf8(path@));
        let digest = digest_of(head.as_slice(), body);
        CacheKey(hex_of(digest.as_slice()))
    }
}

/// A stored response. Header names are unique in a response that the library
/// builds, as `has_unique_names` says.
#[derive(Debug, Clone)]
pub struct CachedResponse {
    pub status: u16,
    pub headers: Vec<(String, String)>,
    pub body: Vec<u8>,
}

impl CachedResponse {
    /// Whether no header name occurs twice.
    pub open spec fn has_unique_names(&self) -> bool {
        forall|i: int, j: int|
            0 <= i < j < self.headers@.len() ==> (#[trigger] self.headers@[i]).0@
                != (#[trigger] self.headers@[j]).0@
    }

    /// Whether this is a response with the given status and body and the
    /// single header `content-type`, set to `content_type`.
    pub open spec fn holds(&self, status: u16, content_type: Seq<char>, body: Seq<u8>) -> bool {
        &&& self.status == status
        &&& self.headers@.len() == 1
        &&& self.headers@[0].0@ == "content-type"@
        &&& self.headers@[0].1@ == content_type
        &&& self.body@ == body
    }

    /// Whether this is a 200 response with the single header `content-type`
    /// set to `content_type` and the given body.
    pub open spec fn is_ok_with(&self, content_type: Seq<char>, body: Seq<u8>) -> bool {
        self.holds(200, content_type, body)
    }

    /// A response with one `content-type` header.
    pub fn with(status: u16, content_type: &str, body: Vec<u8>) -> (r: Self)
        ensures
            r.holds(status, content_type@, body@),
            r.has_unique_names(),
    {
        let mut headers: Vec<(String, String)> = Vec::new();
        headers.push((String::from_str("content-type"), String::from_str(content_type)));
        CachedResponse { status, headers, body }
    }

    /// A 200 response with one `content-type` header.
    pub fn ok_with(content_type: &str, body: Vec<u8>) -> (r: Self)
        ensures
            r.is_ok_with(content_type@, body@),
            r.has_unique_names(),
    {
        CachedResponse::with(200, content_type, body)
    }
}

/// Equal inputs give equal keys.
pub proof fn key_is_deterministic(
    path_a: Seq<char>,
    body_a: Seq<u8>,
    path_b: Seq<char>,
    body_b: Seq<u8>,
)
    requires
        path_a == path_b,
        body_a == body_b,
    ensures
        key_text(path_a, body_a) == key_text(path_b, body_b),
{
}

/// A response with a single header has no name twice.
pub proof fn single_header_is_unique(
    response: CachedResponse,
    status: u16,
    content_type: Seq<char>,
    body: Seq<u8>,
)
    requires
        response.holds(status, content_type, body),
    ensures
        response.has_unique_names(),
{
}

/// Eight length bytes determine the length.
pub proof fn length_bytes_is_injective(a: u64, b: u64)
    requires
        length_bytes(a) == length_bytes(b),
    ensures
        a == b,
{
    let x = length_bytes(a);
    let y = length_bytes(b);
    assert(x[0] == y[0] && x[1] == y[1] && x[2] == y[2] && x[3] == y[3]);
    assert(x[4] == y[4] && x[5] == y[5] && x[6] == y[6] && x[7] == y[7]);
    assert(a == b) by (bit_vector)
        requires
            ((a >> 56) & 0xff) as u8 == ((b >> 56) & 0xff) as u8,
            ((a >> 48) & 0xff) as u8 == ((b >> 48) & 0xff) as u8,
            ((a >> 40) & 0xff) as u8 == ((b >> 40) & 0xff) as u8,
            ((a >> 32) & 0xff) as u8 == ((b >> 32) & 0xff) as u8,
            ((a >> 24) & 0xff) as u8 == ((b >> 24) & 0xff) as u8,
            ((a >> 16) & 0xff) as u8 == ((b >> 16) & 0xff) as u8,
            ((a >> 8) & 0xff) as u8 == ((b >> 8) & 0xff) as u8,
            (a & 0xff) as u8 == (b & 0xff) as u8,
    ;
}

/// Framing keeps requests apart: two requests with the same framed bytes
/// have the same path and the same body. It holds of every path whose
/// encoding has a length that fits in 64 bits, as that of every string in
/// memory does.
pub proof fn framed_is_injective(
    path_a: Seq<char>,
    body_a: Seq<u8>,
    path_b: Seq<char>,
    body_b: Seq<u8>,
)
    requires
        encode_utf8(path_a).len() <= u64::MAX,
        encode_utf8(path_b).len() <= u64::MAX,
        framed(path_a, body_a) == framed(path_b, body_b),
    ensures
        path_a == path_b,
        body_a == body_b,
{
    let ea = encode_utf8(path_a);
    let eb = encode_utf8(path_b);
    let la = length_bytes(ea.len() as u64);
    let lb = length_bytes(eb.len() as u64);
    let fa = framed(path_a, body_a);
    let fb = framed(path_b, body_b);
    assert(la =~= fa.subrange(0, 8));
    assert(lb =~= fb.subrange(0, 8));
    length_bytes_is_injective(ea.len() as u64, eb.len() as u64);
    let n = ea.len() as int;
    assert(ea =~= fa.subrange(8, 8 + n));
    assert(eb =~= fb.subrange(8, 8 + n));
    assert(body_a =~= fa.skip(8 + n));
    assert(body_b =~= fb.skip(8 + n));
    encode_utf8_decode_utf8(path_a);
    encode_utf8_decode_utf8(path_b);
}

/// Two requests have the same key exactly when the digests of their framed
/// bytes agree; requests that differ in path or body have different framed
/// bytes, so only a collision of the digest can give them one key.
pub proof fn same_key_means_same_digest(
    path_a: Seq<char>,
    body_a: Seq<u8>,
    path_b: Seq<char>,
    body_b: Seq<u8>,
)
    requires
        encode_utf8(path_a).len() <= u64::MAX,
        encode_utf8(path_b).len() <= u64::MAX,
    ensures
        key_text(path_a, body_a) == key_text(path_b, body_b) <==> sha256(framed(path_a, body_a))
            == sha256(framed(path_b, body_b)),
        (path_a != path_b || body_a != body_b) ==> framed(path_a, body_a) != framed(
            path_b,
            body_b,
        ),
{
    hex_text_is_injective(sha256(framed(path_a, body_a)), sha256(framed(path_b, body_b)));
    if framed(path_a, body_a) == framed(path_b, body_b) {
        framed_is_injective(path_a, body_a, path_b, body_b);
    }
}

/// Hexadecimal text determines the bytes it was made from, so two keys are
/// equal exactly when the digests behind them are.
pub proof fn hex_text_is_injective(a: Seq<u8>, b: Seq<u8>)
    ensures
        hex_text(a) == hex_text(b) <==> a == b,
{
    if hex_text(a) == hex_text(b) {
        assert(hex_text(a).len() == 2 * a.len());
        assert(hex_text(b).len() == 2 * b.len());
        assert forall|k: int| 0 <= k < a.len() implies a[k] == b[k] by {
            let x = a[k] as int;
            let y = b[k] as int;
            assert(hex_text(a)[2 * k] == hex_digit(x / 16));
            assert(hex_text(b)[2 * k] == hex_digit(y / 16));
            assert(hex_text(a)[2 * k + 1] == hex_digit(x % 16));
            assert(hex_text(b)[2 * k + 1] == hex_digit(y % 16));
            assert(x / 16 == y / 16);
            assert(x % 16 == y % 16);
        }
        assert(a =~= b);
    }
}

} // verus!
