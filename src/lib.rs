//! Verified core of an HTTP-to-WebAssembly gateway: path dispatch, the CGI and
//! Lambda protocols, the guest log forwarder and the module cache
//! decisions.
pub mod bytes;
pub mod cache;
pub mod cgi;
pub mod cgi_env;
pub mod codec;
pub mod dispatch;
pub mod headers;
pub mod lambda;
pub mod logging;
pub mod sandbox;
