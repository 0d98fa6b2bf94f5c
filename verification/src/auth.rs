//! The bearer-token gate.

use vstd::prelude::*;
use crate::config::SecurityConfig;
use crate::text::{contains_text, has_prefix, listed, skip_chars};

verus! {

/// Whether a request with the given `Authorization` header is let through: always
/// when no key is configured, else when the header is `Bearer ` followed by a
/// configured key.
pub open spec fn authorized(keys: Seq<String>, header: Option<Seq<char>>) -> bool {
    keys.len() == 0 || match header {
        Some(value) => "Bearer "@.is_prefix_of(value) && listed(
            keys,
            value.skip("Bearer "@.len() as int),
        ),
        None => false,
    }
}

/// Decides whether a request is let through. `header` is the value of the
/// `Authorization` header, `None` when it is absent or not text.
pub fn is_authorized(security: &SecurityConfig, header: Option<&str>) -> (r: bool)
    ensures
        r == authorized(
            security.api_keys@,
            match header {
                Some(value) => Some(value@),
                None => None,
            },
        ),
{
    if security.api_keys.len() == 0 {
        return true;
    }
    match header {
        Some(value) => {
            if has_prefix(value, "Bearer ") {
                proof {
                    reveal_strlit("Bearer ");
                }
                let key = skip_chars(value, 7);
                contains_text(&security.api_keys, key)
            } else {
                false
            }
        },
        None => false,
    }
}

} // verus!
