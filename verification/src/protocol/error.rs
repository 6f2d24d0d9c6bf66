use vstd::prelude::*;

use crate::text::{concat, decimal, string_from_chars, u64_decimal};

verus! {

/// An error answered by an RPC endpoint: an HTTP-like status code and a message.
#[derive(Debug, Clone)]
pub struct RpcError {
    pub code: u16,
    pub message: String,
}

impl RpcError {
    /// A malformed request (400).
    pub fn bad_request(message: String) -> (r: Self)
        ensures
            r.code == 400,
            r.message@ == message@,
    {
        RpcError { code: 400, message }
    }

    /// A request without valid credentials (401).
    pub fn unauthenticated(message: String) -> (r: Self)
        ensures
            r.code == 401,
            r.message@ == message@,
    {
        RpcError { code: 401, message }
    }

    /// A request for something that does not exist (404).
    pub fn not_found(message: String) -> (r: Self)
        ensures
            r.code == 404,
            r.message@ == message@,
    {
        RpcError { code: 404, message }
    }

    /// A request that the server's configuration cannot serve (412).
    pub fn precondition_failed(message: String) -> (r: Self)
        ensures
            r.code == 412,
            r.message@ == message@,
    {
        RpcError { code: 412, message }
    }

    /// A failure on the server's side (500).
    pub fn internal(message: String) -> (r: Self)
        ensures
            r.code == 500,
            r.message@ == message@,
    {
        RpcError { code: 500, message }
    }

    /// The error as text: `RPC error <code>: <message>`.
    pub fn to_string(&self) -> (s: String)
        ensures
            s@ == "RPC error "@ + decimal(self.code as nat) + ": "@ + self.message@,
    {
        let code = u64_decimal(self.code as u64);
        let s = concat("RPC error ", string_from_chars(code.as_slice()).as_str());
        let s = concat(s.as_str(), ": ");
        concat(s.as_str(), self.message.as_str())
    }
}

} // verus!
