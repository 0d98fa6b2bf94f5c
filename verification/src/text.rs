//! Text helpers shared by the routing and streaming code.

use vstd::prelude::*;
use vstd::utf8::*;
use vstd::string::*;

verus! {

/// The code points with the Unicode `White_Space` property.
pub open spec fn is_white_space(c: char) -> bool {
    let u = c as u32;
    ||| 0x09 <= u <= 0x0D
    ||| u == 0x20
    ||| u == 0x85
    ||| u == 0xA0
    ||| u == 0x1680
    ||| 0x2000 <= u <= 0x200A
    ||| u == 0x2028
    ||| u == 0x2029
    ||| u == 0x202F
    ||| u == 0x205F
    ||| u == 0x3000
}

/// `s` without its leading white space.
pub open spec fn trim_front(s: Seq<char>) -> Seq<char>
    decreases s.len(),
{
    if s.len() > 0 && is_white_space(s[0]) {
        trim_front(s.drop_first())
    } else {
        s
    }
}

/// `s` without its trailing white space.
pub open spec fn trim_back(s: Seq<char>) -> Seq<char>
    decreases s.len(),
{
    if s.len() > 0 && is_white_space(s.last()) {
        trim_back(s.drop_last())
    } else {
        s
    }
}

/// `s` without leading and trailing white space.
pub open spec fn trimmed(s: Seq<char>) -> Seq<char> {
    trim_back(trim_front(s))
}

/// The text that a lossy UTF-8 decoding makes of ill-formed `bytes`: every
/// maximal ill-formed subsequence is replaced by U+FFFD.
pub uninterp spec fn lossy_text(bytes: Seq<u8>) -> Seq<char>;

/// The text that `bytes` decode to: the characters they encode where they are
/// well-formed UTF-8, else what the lossy decoding makes of them.
pub open spec fn decoded(bytes: Seq<u8>) -> Seq<char> {
    if valid_utf8(bytes) {
        decode_utf8(bytes)
    } else {
        lossy_text(bytes)
    }
}

/// UTF-8 keeps prefixes: one text starts another exactly when its encoding
/// starts the encoding of the other.
pub proof fn encoding_keeps_prefixes(p: Seq<char>, t: Seq<char>)
    ensures
        encode_utf8(p).is_prefix_of(encode_utf8(t)) <==> p.is_prefix_of(t),
    decreases p.len(),
{
    let ep = encode_utf8(p);
    let et = encode_utf8(t);
    if p.len() == 0 {
        assert(ep =~= et.subrange(0, 0));
        assert(p =~= t.subrange(0, 0));
    } else if t.len() == 0 {
        encode_utf8_first_scalar(p);
        assert(ep.len() > 0);
    } else {
        let ps = p.drop_first();
        let ts = t.drop_first();
        let hp = encode_scalar(p[0] as u32);
        let ht = encode_scalar(t[0] as u32);
        encode_utf8_first_scalar(p);
        encode_utf8_first_scalar(t);
        encoding_keeps_prefixes(ps, ts);
        assert(ep == hp + encode_utf8(ps));
        assert(et == ht + encode_utf8(ts));
        if p.is_prefix_of(t) {
            assert(p[0] == t.subrange(0, p.len() as int)[0]);
            assert(ps =~= ts.subrange(0, ps.len() as int)) by {
                assert forall|i: int| 0 <= i < ps.len() implies ps[i] == ts[i] by {
                    assert(p[i + 1] == t.subrange(0, p.len() as int)[i + 1]);
                }
            }
            assert(encode_utf8(ps).is_prefix_of(encode_utf8(ts)));
            assert(ep =~= et.subrange(0, ep.len() as int)) by {
                assert forall|i: int| 0 <= i < ep.len() implies ep[i] == et[i] by {
                    if i >= hp.len() {
                        assert(encode_utf8(ps)[i - hp.len()] == encode_utf8(ts).subrange(
                            0,
                            encode_utf8(ps).len() as int,
                        )[i - hp.len()]);
                    }
                }
            }
        }
        if ep.is_prefix_of(et) {
            assert forall|i: int| 0 <= i < ep.len() implies ep[i] == et[i] by {
                assert(ep[i] == et.subrange(0, ep.len() as int)[i]);
            }
            assert(ep[0] == et[0]);
            assert(length_of_first_scalar(ep) == length_of_first_scalar(et));
            assert(hp.len() == ht.len());
            assert(decode_first_scalar(ep) == decode_first_scalar(et));
            char_u32_cast(p[0], p[0] as u32);
            char_u32_cast(t[0], t[0] as u32);
            assert(p[0] == t[0]);
            assert(encode_utf8(ps) =~= encode_utf8(ts).subrange(0, encode_utf8(ps).len() as int))
                by {
                assert forall|i: int| 0 <= i < encode_utf8(ps).len() implies encode_utf8(ps)[i]
                    == encode_utf8(ts)[i] by {
                    assert(ep[i + hp.len()] == et[i + hp.len()]);
                }
            }
            assert(ps.is_prefix_of(ts));
            assert(p =~= t.subrange(0, p.len() as int)) by {
                assert forall|i: int| 0 <= i < p.len() implies p[i] == t[i] by {
                    if i > 0 {
                        assert(ps[i - 1] == ts.subrange(0, ps.len() as int)[i - 1]);
                    }
                }
            }
        }
    }
}

/// Whether the first `n` bytes of `a` and `b` agree; both hold that many.
fn same_bytes(a: &[u8], b: &[u8], n: usize) -> (r: bool)
    requires
        n <= a@.len(),
        n <= b@.len(),
    ensures
        r == (a@.subrange(0, n as int) == b@.subrange(0, n as int)),
{
    let mut i: usize = 0;
    while i < n
        invariant
            i <= n,
            n <= a@.len(),
            n <= b@.len(),
            forall|j: int| 0 <= j < i ==> a@[j] == b@[j],
        decreases n - i,
    {
        if a[i] != b[i] {
            assert(a@.subrange(0, n as int)[i as int] != b@.subrange(0, n as int)[i as int]);
            return false;
        }
        i += 1;
    }
    assert(a@.subrange(0, n as int) =~= b@.subrange(0, n as int));
    true
}

/// Whether `prefix` is a prefix of `text`.
pub fn has_prefix(text: &str, prefix: &str) -> (r: bool)
    ensures
        r == prefix@.is_prefix_of(text@),
{
    let t = text.as_bytes();
    let p = prefix.as_bytes();
    proof {
        encoding_keeps_prefixes(prefix@, text@);
    }
    if p.len() > t.len() {
        return false;
    }
    let r = same_bytes(p, t, p.len());
    assert(p@.subrange(0, p@.len() as int) =~= p@);
    r
}

/// Whether `c` is white space.
pub fn is_space(c: char) -> (r: bool)
    ensures
        r == is_white_space(c),
{
    let u: u32 = c as u32;
    (0x09 <= u && u <= 0x0D) || u == 0x20 || u == 0x85 || u == 0xA0 || u == 0x1680 || (0x2000 <= u
        && u <= 0x200A) || u == 0x2028 || u == 0x2029 || u == 0x202F || u == 0x205F || u == 0x3000
}

/// `text` without leading and trailing white space.
pub fn trim(text: &str) -> (r: &str)
    ensures
        r@ == trimmed(text@),
{
    let n = text.unicode_len();
    let mut start: usize = 0;
    assert(text@.skip(0) =~= text@);
    while start < n && is_space(text.get_char(start))
        invariant
            start <= n,
            n == text@.len(),
            trim_front(text@) == trim_front(text@.skip(start as int)),
        decreases n - start,
    {
        assert(text@.skip(start as int).drop_first() =~= text@.skip(start as int + 1));
        start += 1;
    }
    let mut end: usize = n;
    while end > start && is_space(text.get_char(end - 1))
        invariant
            start <= end <= n,
            n == text@.len(),
            trim_back(text@.skip(start as int)) == trim_back(
                text@.subrange(start as int, end as int),
            ),
        decreases end - start,
    {
        assert(text@.subrange(start as int, end as int).drop_last() =~= text@.subrange(
            start as int,
            end as int - 1,
        ));
        end -= 1;
    }
    assert(text@.skip(start as int) =~= text@.subrange(start as int, n as int));
    text.substring_char(start, end)
}

/// Trusted: `String::from_utf8_lossy`. Well-formed UTF-8 decodes to the
/// characters it encodes; of other input the result depends on the bytes
/// alone.
#[verifier::external_body]
pub(crate) fn decode_lossy(bytes: &[u8]) -> (r: String)
    ensures
        valid_utf8(bytes@) ==> r@ == decode_utf8(bytes@),
        !valid_utf8(bytes@) ==> r@ == lossy_text(bytes@),
{
    String::from_utf8_lossy(bytes).into_owned()
}

/// Whether the two hold the same characters.
pub fn same_text(a: &str, b: &str) -> (r: bool)
    ensures
        r == (a@ == b@),
{
    let x = a.as_bytes();
    let y = b.as_bytes();
    proof {
        encode_utf8_decode_utf8(a@);
        encode_utf8_decode_utf8(b@);
    }
    if x.len() != y.len() {
        return false;
    }
    let r = same_bytes(x, y, x.len());
    assert(x@.subrange(0, x@.len() as int) =~= x@);
    assert(y@.subrange(0, y@.len() as int) =~= y@);
    r
}

/// Whether `name` is one of `names`.
pub open spec fn listed(names: Seq<String>, name: Seq<char>) -> bool {
    exists|i: int| 0 <= i < names.len() && (#[trigger] names[i])@ == name
}

/// Whether `name` is one of `names`.
pub fn contains_text(names: &Vec<String>, name: &str) -> (r: bool)
    ensures
        r == listed(names@, name@),
{
    let mut i: usize = 0;
    while i < names.len()
        invariant
            i <= names.len(),
            forall|j: int| 0 <= j < i ==> (#[trigger] names@[j])@ != name@,
        decreases names.len() - i,
    {
        if same_text(names[i].as_str(), name) {
            return true;
        }
        i += 1;
    }
    false
}

/// What is left of `text` after its first `n` characters.
pub fn skip_chars(text: &str, n: usize) -> (r: &str)
    requires
        n <= text@.len(),
    ensures
        r@ == text@.skip(n as int),
{
    let len = text.unicode_len();
    text.substring_char(n, len)
}

} // verus!
