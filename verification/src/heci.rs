//! The HECI byte link under APF, and the target-specific hooks around it.

use vstd::prelude::*;
use crate::error::HeciError;

verus! {

/// Byte-level transport over HECI. Implementations: UEFI MMIO, Windows
/// `DeviceIoControl`, Linux `/dev/mei*`, or a test fake.
pub trait HeciTransport {
    /// Send a single HECI message. `me_addr` and `host_addr` identify the
    /// connected client pair; on Windows/Linux the driver ignores them.
    fn send(&mut self, me_addr: u8, host_addr: u8, data: &[u8]) -> Result<(), HeciError>;

    /// Receive a single HECI message into `buf`. Returns `(len, me_addr,
    /// host_addr)`. `me=0, host=0` marks an HBM (bus-management) frame.
    fn recv(&mut self, buf: &mut [u8]) -> Result<(usize, u8, u8), HeciError>;

    fn close(&mut self);

    /// Tear down and re-establish the HECI client connection. Default:
    /// no-op (Windows/Linux drivers handle reconnect transparently; only
    /// UEFI MMIO targets need to override).
    fn reset(&mut self) -> (r: Result<(), HeciError>)
        default_ensures
            r is Ok,
    {
        Ok(())
    }
}

/// Target-specific escape hatches. Every method has a default no-op;
/// targets override only the ones they need.
pub trait HeciHooks {
    /// Called after sending an `APF_CHANNEL_OPEN`, before waiting for
    /// `APF_CHANNEL_OPEN_CONFIRMATION`.
    fn post_channel_open_send(&mut self) {
    }

    /// Called when the session sees that the ME dropped the connection
    /// (e.g. a bus disconnect on a channel reopen). Targets that must
    /// re-handshake the HECI client do it here; others return `Ok(())`.
    fn reconnect_heci<X: HeciTransport>(&mut self, heci: &mut X) -> (r: Result<(), HeciError>)
        default_ensures
            r is Ok,
            *final(heci) == *old(heci),
    {
        Ok(())
    }
}

/// Default hooks with all methods no-op.
#[derive(Default, Debug, Clone, Copy)]
pub struct NoHooks;

impl HeciHooks for NoHooks {
}

} // verus!
