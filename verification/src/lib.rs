pub mod client;
pub mod extract;
pub mod front;
pub mod graph;
pub mod indexer;
pub mod locate;
pub mod mcp_client;
pub mod observer;
pub mod parser;
pub mod protocol;
pub mod server;
pub mod syntax;
pub mod text;
pub mod usage;
pub mod watch;
