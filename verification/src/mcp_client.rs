use crate::client::CodeIntelClient;
use crate::text::{decimal, push_decimal, starts_with_chars, to_chars};
use vstd::prelude::*;
use vstd::string::StringExecFns;

verus! {

/// A client that serves a tool protocol by asking the query server.
pub struct McpClient {
    client: CodeIntelClient,
    port: u16,
}

impl McpClient {
    /// The port of the server that the client asks.
    pub closed spec fn spec_port(&self) -> u16 {
        self.port
    }

    /// A client of the server that listens on `port`.
    pub fn new(port: u16) -> (c: Self)
        ensures
            c.spec_port() == port,
            c.spec_client().spec_port() == port,
    {
        McpClient { client: CodeIntelClient::new(port), port }
    }

    /// The client through which the server is asked.
    pub closed spec fn spec_client(&self) -> CodeIntelClient {
        self.client
    }

    /// The port of the server.
    pub fn port(&self) -> (p: u16)
        ensures
            p == self.spec_port(),
    {
        self.port
    }

    /// The client through which the server is asked.
    pub fn client(&self) -> (c: &CodeIntelClient)
        ensures
            *c == self.spec_client(),
    {
        &self.client
    }
}

/// The name and the version under which a tool server presents itself.
#[derive(Debug, Clone)]
pub struct McpServerInfo {
    pub name: String,
    pub version: String,
}

/// What a message of the tool protocol asks for.
#[derive(Debug, Clone, Copy, PartialEq, Eq, Structural)]
pub enum McpMethod {
    Initialize,
    ToolsList,
    ToolsCall,
    ResourcesList,
    /// A notification, which is not answered.
    Notification,
    Ping,
    /// A method that is not known, which is answered with an error.
    Unknown,
}

/// The method that a name of the tool protocol stands for. A name that
/// starts with `notifications/` is a notification, and so is `initialized`.
pub open spec fn mcp_method_of(name: Seq<char>) -> McpMethod {
    if name == "initialize"@ {
        McpMethod::Initialize
    } else if name == "tools/list"@ {
        McpMethod::ToolsList
    } else if name == "tools/call"@ {
        McpMethod::ToolsCall
    } else if name == "resources/list"@ {
        McpMethod::ResourcesList
    } else if "notifications/"@.is_prefix_of(name) || name == "initialized"@ {
        McpMethod::Notification
    } else if name == "ping"@ {
        McpMethod::Ping
    } else {
        McpMethod::Unknown
    }
}

/// See `mcp_method_of`.
pub fn classify_mcp_method(name: &str) -> (m: McpMethod)
    ensures
        m == mcp_method_of(name@),
{
    let text = name.to_string();
    if text == "initialize".to_string() {
        McpMethod::Initialize
    } else if text == "tools/list".to_string() {
        McpMethod::ToolsList
    } else if text == "tools/call".to_string() {
        McpMethod::ToolsCall
    } else if text == "resources/list".to_string() {
        McpMethod::ResourcesList
    } else if starts_with_chars(
        to_chars(name).as_slice(),
        to_chars("notifications/").as_slice(),
    ) || text == "initialized".to_string() {
        McpMethod::Notification
    } else if text == "ping".to_string() {
        McpMethod::Ping
    } else {
        McpMethod::Unknown
    }
}

/// What the tool that finds definitions reports for `count` definitions of
/// `symbol_name`, which `listing` shows.
pub open spec fn definition_report_text(symbol_name: Seq<char>, count: nat, listing: Seq<char>) -> Seq<
    char,
> {
    if count == 0 {
        "No definition found for symbol '"@ + symbol_name + "'"@
    } else {
        "Found "@ + decimal(count) + " definition(s) for symbol '"@ + symbol_name + "':\n\n"@
            + listing
    }
}

/// See `definition_report_text`.
pub fn definition_report(symbol_name: &str, count: usize, listing: &str) -> (r: String)
    ensures
        r@ == definition_report_text(symbol_name@, count as nat, listing@),
{
    if count == 0 {
        let mut r = "No definition found for symbol '".to_string();
        r.append(symbol_name);
        r.append("'");
        r
    } else {
        let mut r = "Found ".to_string();
        push_decimal(&mut r, count);
        r.append(" definition(s) for symbol '");
        r.append(symbol_name);
        r.append("':\n\n");
        r.append(listing);
        assert(r@ =~= definition_report_text(symbol_name@, count as nat, listing@));
        r
    }
}

/// The code of the error for a method or a tool that is not known.
pub const METHOD_NOT_FOUND: i32 = -32601;

/// The code of the error for a message that could not be handled.
pub const INTERNAL_ERROR: i32 = -32603;

/// An error of the tool protocol: a code and a text.
#[derive(Debug, Clone)]
pub struct JsonRpcError {
    pub code: i32,
    pub message: String,
}

/// The error for a method that is not known.
pub fn method_not_found(method: &str) -> (e: JsonRpcError)
    ensures
        e.code == METHOD_NOT_FOUND,
        e.message@ == "Method not found: "@ + method@,
{
    let mut message = "Method not found: ".to_string();
    message.append(method);
    JsonRpcError { code: METHOD_NOT_FOUND, message }
}

/// The error for a tool that is not known.
pub fn unknown_tool(tool: &str) -> (e: JsonRpcError)
    ensures
        e.code == METHOD_NOT_FOUND,
        e.message@ == "Unknown tool: "@ + tool@,
{
    let mut message = "Unknown tool: ".to_string();
    message.append(tool);
    JsonRpcError { code: METHOD_NOT_FOUND, message }
}

/// The error for a message that could not be handled, for the reason `reason`.
pub fn internal_error(reason: &str) -> (e: JsonRpcError)
    ensures
        e.code == INTERNAL_ERROR,
        e.message@ == "Internal error: "@ + reason@,
{
    let mut message = "Internal error: ".to_string();
    message.append(reason);
    JsonRpcError { code: INTERNAL_ERROR, message }
}

} // verus!
