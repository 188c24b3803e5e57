//! Plugin-local error type carrying a JSON-RPC error code and a message.
use vstd::prelude::*;
use crate::text::{owned, push_str, i64_text, signed_decimal};

verus! {

/// JSON-RPC "internal error" code.
pub const INTERNAL_ERROR: i64 = -32603;

/// JSON-RPC "invalid params" code.
pub const INVALID_PARAMS: i64 = -32602;

#[derive(Debug)]
pub struct PluginError {
    pub code: i64,
    pub message: String,
}

impl PluginError {
    /// An internal error (`-32603`) with the given message.
    pub fn internal(msg: &str) -> (r: PluginError)
        ensures
            r.code == INTERNAL_ERROR,
            r.message@ == msg@,
    {
        PluginError { code: INTERNAL_ERROR, message: owned(msg) }
    }

    /// An invalid-params error (`-32602`) with the given message.
    pub fn invalid_params(msg: &str) -> (r: PluginError)
        ensures
            r.code == INVALID_PARAMS,
            r.message@ == msg@,
    {
        PluginError { code: INVALID_PARAMS, message: owned(msg) }
    }

    /// The display form `[code] message`.
    pub open spec fn display_spec(&self) -> Seq<char> {
        seq!['['] + signed_decimal(self.code as int) + seq![']', ' '] + self.message@
    }

    /// Renders the error as `[code] message`.
    pub fn display_text(&self) -> (r: String)
        ensures
            r@ == self.display_spec(),
    {
        let mut s = String::new();
        s.push('[');
        let code = i64_text(self.code);
        push_str(&mut s, code.as_str());
        s.push(']');
        s.push(' ');
        push_str(&mut s, self.message.as_str());
        s
    }
}

} // verus!
