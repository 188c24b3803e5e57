//! How an edited text cell is stored, given the column's type hint: a
//! `timestamp` column reads RFC 3339, a `reference` column stores a
//! reference, a `binary` column decodes base64, `array` / `map` columns
//! read the JSON the grid shows them as; anything else, or text that does
//! not read, stays a string.
use vstd::prelude::*;
use base64::Engine;
use crate::ast::Timestamp;
use crate::instant::{parse_rfc3339, rfc3339_instant};
use crate::text::{owned, same_text};

verus! {

/// What the standard base64 engine of the `base64` crate decodes `text`
/// to, or `None` where it reports an error.
pub uninterp spec fn base64_decoded(text: Seq<char>) -> Option<Seq<u8>>;

/// Decodes standard (padded) base64 with `base64::engine::general_purpose::STANDARD`;
/// the contract names the result.
#[verifier::external_body]
fn decode_base64(text: &str) -> (r: Option<Vec<u8>>)
    ensures
        match base64_decoded(text@) {
            Some(b) => r matches Some(v) && v@ == b,
            None => r is None,
        },
{
    match base64::engine::general_purpose::STANDARD.decode(text) {
        Ok(bytes) => Some(bytes),
        Err(_) => None,
    }
}

/// How a text cell is to be stored.
pub enum StringCoercion {
    Timestamp(Timestamp),
    Reference(String),
    Bytes(Vec<u8>),
    /// Read the text as JSON and store what it holds; store the text as a
    /// string when it is not JSON.
    Json,
    Text(String),
}

pub enum SCoercion {
    Timestamp(i64, u32),
    Reference(Seq<char>),
    Bytes(Seq<u8>),
    Json,
    Text(Seq<char>),
}

impl View for StringCoercion {
    type V = SCoercion;

    open spec fn view(&self) -> SCoercion {
        match self {
            StringCoercion::Timestamp(t) => SCoercion::Timestamp(t.seconds, t.nanos),
            StringCoercion::Reference(s) => SCoercion::Reference(s@),
            StringCoercion::Bytes(b) => SCoercion::Bytes(b@),
            StringCoercion::Json => SCoercion::Json,
            StringCoercion::Text(s) => SCoercion::Text(s@),
        }
    }
}

pub open spec fn coerce_spec(s: Seq<char>, hint: Option<Seq<char>>) -> SCoercion {
    if hint == Some("timestamp"@) {
        match rfc3339_instant(s) {
            Ok((sec, n)) => SCoercion::Timestamp(sec, n),
            Err(_) => SCoercion::Text(s),
        }
    } else if hint == Some("reference"@) {
        SCoercion::Reference(s)
    } else if hint == Some("binary"@) {
        match base64_decoded(s) {
            Some(b) => SCoercion::Bytes(b),
            None => SCoercion::Text(s),
        }
    } else if hint == Some("array"@) || hint == Some("map"@) {
        SCoercion::Json
    } else {
        SCoercion::Text(s)
    }
}

pub open spec fn hint_view(h: Option<&str>) -> Option<Seq<char>> {
    match h {
        Some(x) => Some(x@),
        None => None,
    }
}

/// How the text `s` of an edited cell is stored, given the column type.
pub fn coerce_string(s: &str, hint: Option<&str>) -> (r: StringCoercion)
    ensures
        r@ == coerce_spec(s@, hint_view(hint)),
{
    let h = match hint {
        Some(x) => x,
        None => {
            return StringCoercion::Text(owned(s));
        },
    };
    if same_text(h, "timestamp") {
        match parse_rfc3339(s) {
            Ok(t) => StringCoercion::Timestamp(t),
            Err(_) => StringCoercion::Text(owned(s)),
        }
    } else if same_text(h, "reference") {
        StringCoercion::Reference(owned(s))
    } else if same_text(h, "binary") {
        match decode_base64(s) {
            Some(b) => StringCoercion::Bytes(b),
            None => StringCoercion::Text(owned(s)),
        }
    } else if same_text(h, "array") || same_text(h, "map") {
        StringCoercion::Json
    } else {
        StringCoercion::Text(owned(s))
    }
}

} // verus!
