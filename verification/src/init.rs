//! The user-space init service's bootstrap: validate the boot filesystem's
//! service manifest, then synchronously take the first bootstrap datagram
//! from the kernel channel.

use vstd::prelude::*;

use crate::bootfs::{spec_entries, spec_validate_manifest, BootfsView, ManifestSummary};
use crate::channel::{spec_receive, Channel, ReceiveError};

verus! {

/// Size of the buffer the init service receives its first datagram into.
pub const BOOTSTRAP_BUFFER_LEN: usize = 16;

/// What the init service found at startup: the manifest verdict and the
/// first received datagram, or the receive error.
pub struct BootstrapOutcome {
    /// Bytes of the first datagram that fit the bootstrap buffer.
    pub last_message_len: usize,
    /// The receive error, when the channel held no message.
    pub receive_error: Option<ReceiveError>,
    /// The boot filesystem the manifest was validated against.
    pub bootfs: BootfsView,
    /// The manifest verdict.
    pub manifest: ManifestSummary,
}

/// Entry point for the init service once the microkernel has booted:
/// validates the manifest of the staged boot filesystem, then receives
/// exactly one datagram from the channel into a
/// [`BOOTSTRAP_BUFFER_LEN`]-byte buffer.
pub fn bootstrap(channel: &mut Channel, bootfs: &BootfsView) -> (r: BootstrapOutcome)
    requires
        old(channel).wf(),
    ensures
        final(channel).wf(),
        r.manifest == spec_validate_manifest(spec_entries(bootfs.spec_data())),
        r.bootfs.spec_data() == bootfs.spec_data(),
        old(channel).contents().len() == 0 ==> {
            &&& r.receive_error == Some(ReceiveError::Empty)
            &&& r.last_message_len == 0
            &&& final(channel).contents() == old(channel).contents()
        },
        old(channel).contents().len() > 0 ==> {
            &&& r.receive_error is None
            &&& r.last_message_len == vstd::math::min(
                spec_receive(old(channel).contents()).0.len() as int,
                BOOTSTRAP_BUFFER_LEN as int,
            )
            &&& final(channel).contents() == spec_receive(old(channel).contents()).1
        },
{
    let view = bootfs.duplicate();
    let manifest = view.validate_manifest();

    let mut buf: Vec<u8> = Vec::new();
    let mut i: usize = 0;
    while i < BOOTSTRAP_BUFFER_LEN
        invariant
            i <= BOOTSTRAP_BUFFER_LEN,
            buf@.len() == i,
        decreases BOOTSTRAP_BUFFER_LEN - i,
    {
        buf.push(0);
        i += 1;
    }
    match channel.receive(&mut buf) {
        Ok(len) => BootstrapOutcome {
            last_message_len: len,
            receive_error: None,
            bootfs: view,
            manifest,
        },
        Err(err) => BootstrapOutcome {
            last_message_len: 0,
            receive_error: Some(err),
            bootfs: view,
            manifest,
        },
    }
}

} // verus!
