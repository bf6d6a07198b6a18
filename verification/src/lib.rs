/// IPv4 addresses and endpoints as plain octets, and the dotted-quad parser.
pub mod addr;
/// The resolver: hostname validation, query encoding, response decoding,
/// transaction ids, and the source-correlated receive wait.
pub mod dns;
/// The one trusted boundary: the random draw.
pub mod entropy;
/// The fetch driver: the request builder and the connect/request/response
/// state machine over socket status snapshots.
pub mod http;
/// Byte-buffer helpers shared by the wire codecs.
pub mod wire;
