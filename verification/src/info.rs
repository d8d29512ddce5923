//! Interpretation of query responses of the channel-based device API.

use vstd::prelude::*;
use vstd::string::StrSliceExecFns;

use crate::error::MakcuError;
use crate::protocol::parser::{classify_response, classify_spec, ResponseKind, ResponseKindModel};
use crate::protocol::text::text_to_string;

verus! {

/// `s` without a leading `km.`, when it has one.
pub open spec fn without_km_prefix(s: Seq<char>) -> Seq<char> {
    if s.len() >= 3 && s.take(3) == seq!['k', 'm', '.'] {
        s.skip(3)
    } else {
        s
    }
}

/// Strip the "km." prefix that the firmware prepends to some responses.
pub fn strip_km_prefix(s: &str) -> (r: String)
    ensures
        r@ == without_km_prefix(s@),
{
    let n = s.unicode_len();
    if n >= 3 && s.get_char(0) == 'k' && s.get_char(1) == 'm' && s.get_char(2) == '.' {
        proof {
            assert(s@.take(3) =~= seq!['k', 'm', '.']);
        }
        text_to_string(s.substring_char(3, n))
    } else {
        proof {
            if s@.len() >= 3 && s@.take(3) == seq!['k', 'm', '.'] {
                assert(s@[0] == s@.take(3)[0]);
                assert(s@[1] == s@.take(3)[1]);
                assert(s@[2] == s@.take(3)[2]);
            }
        }
        text_to_string(s)
    }
}

/// The value of a query response: any body with text; an empty body is an error.
pub fn classify_as_value(raw: &[u8]) -> (r: Result<String, MakcuError>)
    ensures
        match r {
            Ok(v) => match classify_spec(raw@) {
                ResponseKindModel::Value(t) => v@ == t,
                ResponseKindModel::ValueOrEcho(t) => v@ == t,
                ResponseKindModel::Executed => false,
            },
            Err(MakcuError::Protocol(m)) => classify_spec(raw@) is Executed && m@
                == "expected a value but got EXECUTED"@,
            Err(_) => false,
        },
{
    match classify_response(raw) {
        ResponseKind::Value(v) => Ok(v),
        ResponseKind::ValueOrEcho(v) => Ok(v),
        ResponseKind::Executed => Err(
            MakcuError::Protocol(text_to_string("expected a value but got EXECUTED")),
        ),
    }
}

/// The value of a query response with the firmware's `km.` prefix stripped,
/// as the version and serial queries report it.
pub fn query_value(raw: &[u8]) -> (r: Result<String, MakcuError>)
    ensures
        match r {
            Ok(v) => match classify_spec(raw@) {
                ResponseKindModel::Value(t) => v@ == without_km_prefix(t),
                ResponseKindModel::ValueOrEcho(t) => v@ == without_km_prefix(t),
                ResponseKindModel::Executed => false,
            },
            Err(MakcuError::Protocol(m)) => classify_spec(raw@) is Executed && m@
                == "expected a value but got EXECUTED"@,
            Err(_) => false,
        },
{
    match classify_as_value(raw) {
        Ok(v) => Ok(strip_km_prefix(v.as_str())),
        Err(e) => Err(e),
    }
}

} // verus!
