//! Length-delimited framing for a JSON-RPC byte stream, in the style used by
//! language servers: each message is a `Content-Length` header line, a blank
//! separator line, and exactly that many payload bytes of UTF-8 JSON.

pub mod lsp_io;
pub mod wire;
