//! TCP skeleton over the loopback IP layer.

use vstd::prelude::*;

use crate::ethernet::{EthernetDriver, NetError};
use crate::ip::{Ipv4Addr, LoopbackIp};

verus! {

/// A connection's two endpoints.
pub struct TcpEndpoint {
    pub local: (Ipv4Addr, u16),
    pub remote: (Ipv4Addr, u16),
}

/// Handle over a loopback IP endpoint.
pub struct TcpHandle<'a, D: EthernetDriver> {
    ip: &'a mut LoopbackIp<D>,
    remote: (Ipv4Addr, u16),
}

impl<'a, D: EthernetDriver> TcpHandle<'a, D> {
    /// The payload buffered in the loopback beneath the handle.
    pub closed spec fn spec_buffered(&self) -> Seq<u8> {
        self.ip.spec_buffered()
    }

    /// Opens a handle toward `remote`.
    pub fn new(ip: &'a mut LoopbackIp<D>, remote: (Ipv4Addr, u16)) -> TcpHandle<'a, D> {
        TcpHandle { ip, remote }
    }

    /// Sends bytes down the loopback: on success they are the buffered
    /// payload.
    pub fn send(&mut self, bytes: &[u8]) -> (r: Result<(), NetError>)
        ensures
            r is Ok ==> final(self).spec_buffered() == bytes@,
    {
        self.ip.send(bytes)
    }

    /// Receives looped-back bytes: a prefix of the buffered payload,
    /// truncated to the buffer's length.
    pub fn recv(&mut self, buffer: &mut Vec<u8>) -> (r: Result<usize, NetError>)
        ensures
            match r {
                Ok(n) => {
                    &&& old(self).spec_buffered().len() > 0
                    &&& n == vstd::math::min(
                        old(buffer)@.len() as int,
                        old(self).spec_buffered().len() as int,
                    )
                    &&& final(buffer)@.len() == old(buffer)@.len()
                    &&& final(buffer)@ =~= old(self).spec_buffered().take(n as int) + old(buffer)@.skip(n as int)
                },
                Err(e) => e == NetError::Device && old(self).spec_buffered().len() == 0 && final(buffer)@ == old(buffer)@,
            },
    {
        self.ip.receive(buffer)
    }
}

} // verus!
