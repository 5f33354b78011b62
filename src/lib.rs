/// The set of display names in use, each held at most once.
pub mod registry;

/// A fan-out channel with a bounded queue per subscriber that drops its
/// oldest message when full.
pub mod hub;

/// The per-connection session: handshake, chat and departure, as steps over
/// the shared registry and hub.
pub mod session;
