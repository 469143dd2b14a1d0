//! TLS session skeleton: passes bytes through the TCP handle; no
//! cryptography is established yet.

use vstd::prelude::*;

use crate::ethernet::{EthernetDriver, NetError};
use crate::tcp::TcpHandle;

verus! {

/// A pass-through session over a TCP handle.
pub struct TlsSession<'a, D: EthernetDriver> {
    handle: TcpHandle<'a, D>,
}

impl<'a, D: EthernetDriver> TlsSession<'a, D> {
    /// The payload buffered beneath the session.
    pub closed spec fn spec_buffered(&self) -> Seq<u8> {
        self.handle.spec_buffered()
    }

    /// Wraps a TCP handle.
    pub fn new(handle: TcpHandle<'a, D>) -> (r: TlsSession<'a, D>)
        ensures
            r.spec_buffered() == handle.spec_buffered(),
    {
        TlsSession { handle }
    }

    /// Sends bytes through the session: on success they are the buffered
    /// payload.
    pub fn send(&mut self, bytes: &[u8]) -> (r: Result<(), NetError>)
        ensures
            r is Ok ==> final(self).spec_buffered() == bytes@,
    {
        self.handle.send(bytes)
    }

    /// Receives bytes from the session: a prefix of the buffered payload,
    /// truncated to the buffer's length.
    pub fn recv(&mut self, buffer: &mut Vec<u8>) -> (r: Result<usize, NetError>)
        ensures
            match r {
                Ok(n) => {
                    &&& old(self).spec_buffered().len() > 0
                    &&& n == vstd::math::min(
                        old(buffer)@.len() as int,
                        old(self).spec_buffered().len() as int,
                    )
                    &&& final(buffer)@.len() == old(buffer)@.len()
                    &&& final(buffer)@ =~= old(self).spec_buffered().take(n as int) + old(buffer)@.skip(n as int)
                },
                Err(e) => e == NetError::Device && old(self).spec_buffered().len() == 0 && final(buffer)@ == old(buffer)@,
            },
    {
        self.handle.recv(buffer)
    }
}

} // verus!
