//! Detail values made safe for the diagnostic log.
use vstd::prelude::*;

use crate::diagnostic_log::{
    is_sensitive_key, sanitize_diagnostic_text, sanitized_text, sensitive_key, truncate_string, truncated, REDACTED,
};
use crate::json::{JsonMember, JsonValue};
use crate::text::owned;

verus! {

/// A value that may carry a secret: text, an array or an object.
pub open spec fn secret_like(v: JsonValue) -> bool {
    v is Str || v is Array || v is Object
}

/// `r` is `v` with its secrets removed: under a secret key, text, arrays
/// and objects become the redaction mark; other text is cut to length and
/// has what follows the known markers redacted; objects and arrays are
/// cleaned member by member; other values stay.
pub open spec fn sanitized_value(v: JsonValue, r: JsonValue) -> bool
    decreases v,
{
    match v {
        JsonValue::Object(ms) => r matches JsonValue::Object(rs) && rs@.len() == ms@.len() && forall|i: int|
            0 <= i < ms@.len() ==> {
                &&& (#[trigger] rs@[i]).key@ == ms@[i].key@
                &&& if is_sensitive_key(ms@[i].key@) && secret_like(ms@[i].value) {
                    rs@[i].value matches JsonValue::Str(s) && s@ == REDACTED@
                } else {
                    sanitized_value(ms@[i].value, rs@[i].value)
                }
            },
        JsonValue::Array(vs) => r matches JsonValue::Array(rs) && rs@.len() == vs@.len() && forall|i: int|
            0 <= i < vs@.len() ==> sanitized_value(vs@[i], #[trigger] rs@[i]),
        JsonValue::Str(s) => r matches JsonValue::Str(t) && t@ == sanitized_text(truncated(s@)),
        JsonValue::Null => r == JsonValue::Null,
        JsonValue::Bool(b) => r == JsonValue::Bool(b),
        JsonValue::Number(text, n) => r matches JsonValue::Number(t2, n2) && t2@ == text@ && n2 == n,
    }
}

/// A detail value made safe for the diagnostic log.
pub fn sanitize_diagnostic_value(value: &JsonValue) -> (r: JsonValue)
    ensures
        sanitized_value(*value, r),
    decreases value,
{
    match value {
        JsonValue::Object(ms) => {
            let mut out: Vec<JsonMember> = Vec::new();
            let mut i: usize = 0;
            assert(decreases_to!(*value => *ms));
            while i < ms.len()
                invariant
                    i <= ms@.len(),
                    *value == JsonValue::Object(*ms),
                    decreases_to!(*value => *ms),
                    out@.len() == i,
                    forall|j: int|
                        0 <= j < i ==> {
                            &&& (#[trigger] out@[j]).key@ == ms@[j].key@
                            &&& if is_sensitive_key(ms@[j].key@) && secret_like(ms@[j].value) {
                                out@[j].value matches JsonValue::Str(s) && s@ == REDACTED@
                            } else {
                                sanitized_value(ms@[j].value, out@[j].value)
                            }
                        },
                decreases ms@.len() - i,
            {
                let m = &ms[i];
                let secret = match &m.value {
                    JsonValue::Str(_) | JsonValue::Array(_) | JsonValue::Object(_) => true,
                    _ => false,
                };
                let v = if sensitive_key(m.key.as_str()) && secret {
                    JsonValue::Str(owned(REDACTED))
                } else {
                    proof {
                        assert(decreases_to!(*ms => ms@));
                        assert(decreases_to!(ms@ => ms@[i as int]));
                        assert(decreases_to!(ms@[i as int] => ms@[i as int].value));
                    }
                    sanitize_diagnostic_value(&m.value)
                };
                out.push(JsonMember { key: m.key.clone(), value: v });
                i = i + 1;
            }
            JsonValue::Object(out)
        },
        JsonValue::Array(vs) => {
            let mut out: Vec<JsonValue> = Vec::new();
            let mut i: usize = 0;
            assert(decreases_to!(*value => *vs));
            while i < vs.len()
                invariant
                    i <= vs@.len(),
                    *value == JsonValue::Array(*vs),
                    decreases_to!(*value => *vs),
                    out@.len() == i,
                    forall|j: int| 0 <= j < i ==> sanitized_value(vs@[j], #[trigger] out@[j]),
                decreases vs@.len() - i,
            {
                proof {
                    assert(decreases_to!(*vs => vs@));
                    assert(decreases_to!(vs@ => vs@[i as int]));
                }
                let v = sanitize_diagnostic_value(&vs[i]);
                out.push(v);
                i = i + 1;
            }
            JsonValue::Array(out)
        },
        JsonValue::Str(s) => {
            let t = truncate_string(s.as_str());
            JsonValue::Str(sanitize_diagnostic_text(t.as_str()))
        },
        JsonValue::Null => JsonValue::Null,
        JsonValue::Bool(b) => JsonValue::Bool(*b),
        JsonValue::Number(text, n) => JsonValue::Number(text.clone(), *n),
    }
}

} // verus!
