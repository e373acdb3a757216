pub mod cert_manager;
pub mod headers;
pub mod http_handler;
pub mod proxy;
pub mod request_parser;
pub mod session_manager;
pub mod tls_handler;
pub mod types;
pub mod websocket_handler;

use vstd::prelude::*;

verus! {

} // verus!
