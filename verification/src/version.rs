//! Version strings of the service and of the migration handshake.

use vstd::prelude::*;

verus! {

/// Version reported by the broker.
pub const UNDERMOON_VERSION: &'static str = "0.1.0";

/// Version token carried by every migration handshake command. A peer
/// on another version refuses the handshake.
pub const UNDERMOON_MIGRATION_VERSION: &'static str = "0.0.1";

} // verus!
