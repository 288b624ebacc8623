//! Relay-chain finality and parachain-inclusion core.
//!
//! Two consensus-critical subsystems of a sharded blockchain node:
//!
//! * the finality target selector, which combines the answers of the
//!   chain-selection, approval-voting and dispute-coordinator oracles under a
//!   safety net that forces progress even when an oracle stalls; and
//! * the parachains inherent processor, a mandatory once-per-block transaction
//!   that absorbs one round of parachain activity (disputes, availability
//!   bitfields, backed candidates, upward messages) in a fixed order.
//!
//! Collaborating subsystems (the header backend, the oracle bus, the
//! scheduler, inclusion, dispute and upward-message modules) are represented
//! by the replies they give and the calls they receive; the logic that reacts
//! to those replies is verified for every reply the collaborators could give.

pub mod chain;
pub mod fallback;
pub mod inherent;
pub mod selection;
