use crate::protocol::{FindDefinitionParams, SymbolType};
use vstd::prelude::*;
use vstd::string::StringExecFns;

verus! {

/// A client of the query server on this machine.
pub struct CodeIntelClient {
    port: u16,
}

impl CodeIntelClient {
    /// The port of the server that the client asks.
    pub closed spec fn spec_port(&self) -> u16 {
        self.port
    }

    /// A client of the server that listens on `port`.
    pub fn new(port: u16) -> (c: Self)
        ensures
            c.spec_port() == port,
    {
        CodeIntelClient { port }
    }

    /// The port of the server.
    pub fn port(&self) -> (p: u16)
        ensures
            p == self.spec_port(),
    {
        self.port
    }

    /// What is asked to find the definitions of `symbol_name`, of kind
    /// `symbol_type` where one is given.
    pub fn definition_query(&self, symbol_name: &str, symbol_type: Option<SymbolType>) -> (p:
        FindDefinitionParams)
        ensures
            p.symbol_name@ == symbol_name@,
            p.symbol_type == symbol_type,
    {
        FindDefinitionParams { symbol_name: symbol_name.to_string(), symbol_type }
    }
}

/// Why a request of a client gave no result.
#[derive(Debug, Clone)]
pub enum ClientError {
    /// The server answered with this error.
    Server(String),
    /// The answer holds neither a result nor an error.
    NoResult,
}

/// The text of an error of a client.
pub open spec fn client_error_text(e: ClientError) -> Seq<char> {
    match e {
        ClientError::Server(text) => "Server error: "@ + text@,
        ClientError::NoResult => "No result in response"@,
    }
}

impl ClientError {
    /// See `client_error_text`.
    pub fn message(&self) -> (r: String)
        ensures
            r@ == client_error_text(*self),
    {
        match self {
            ClientError::Server(text) => {
                let mut r = "Server error: ".to_string();
                r.append(text.as_str());
                r
            },
            ClientError::NoResult => "No result in response".to_string(),
        }
    }
}

/// What a client makes of an answer: the error where there is one, else
/// the result, and an error of its own where there is neither.
pub fn interpret_response<T>(result: Option<T>, error: Option<String>) -> (r: Result<
    T,
    ClientError,
>)
    ensures
        match error {
            Some(text) => r matches Err(ClientError::Server(t)) && t@ == text@,
            None => match result {
                Some(value) => r == Ok::<T, ClientError>(value),
                None => r matches Err(ClientError::NoResult),
            },
        },
{
    match error {
        Some(text) => Err(ClientError::Server(text)),
        None => match result {
            Some(value) => Ok(value),
            None => Err(ClientError::NoResult),
        },
    }
}

} // verus!
