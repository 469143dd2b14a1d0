//! Ethernet frames and a loopback driver that stores the last transmitted
//! payload.

use vstd::prelude::*;

use crate::bytes::subvec;

verus! {

/// A six-byte hardware address.
#[derive(Clone, Copy, PartialEq, Eq, Structural)]
pub struct MacAddress {
    pub a: u8,
    pub b: u8,
    pub c: u8,
    pub d: u8,
    pub e: u8,
    pub f: u8,
}

/// One frame to transmit.
pub struct EthernetFrame {
    pub destination: MacAddress,
    pub source: MacAddress,
    pub ethertype: u16,
    pub payload: Vec<u8>,
}

/// Driver interface: the model state is the last transmitted frame — its
/// payload, and its addressing header.
pub trait EthernetDriver {
    /// The payload the driver would hand back, if any.
    spec fn spec_buffered(&self) -> Seq<u8>;

    /// The destination, source and ethertype of the last transmitted
    /// frame, if any.
    spec fn spec_last_header(&self) -> Option<(MacAddress, MacAddress, u16)>;

    /// Transmits a frame; on success the frame is buffered.
    fn transmit(&mut self, frame: &EthernetFrame) -> (r: Result<(), NetError>)
        ensures
            r is Ok ==> final(self).spec_buffered() == frame.payload@ && final(self).spec_last_header() == Some((frame.destination, frame.source, frame.ethertype));

    /// Receives into `buffer`: a prefix of the buffered payload, truncated
    /// to the buffer's length.
    fn receive(&mut self, buffer: &mut Vec<u8>) -> (r: Result<usize, NetError>)
        ensures
            match r {
                Ok(n) => {
                    &&& old(self).spec_buffered().len() > 0
                    &&& n == vstd::math::min(
                        old(buffer)@.len() as int,
                        old(self).spec_buffered().len() as int,
                    )
                    &&& final(buffer)@.len() == old(buffer)@.len()
                    &&& final(buffer)@ =~= old(self).spec_buffered().take(n as int) + old(buffer)@.skip(n as int)
                },
                Err(e) => e == NetError::Device && old(self).spec_buffered().len() == 0 && final(buffer)@ == old(buffer)@,
            };
}

/// What a network operation can fail with.
#[derive(Debug, Clone, Copy, PartialEq, Eq, Structural)]
pub enum NetError {
    Device,
    Malformed,
    Unsupported,
}

/// Loopback driver storing the last transmitted payload; the frame's
/// addressing header is tracked as model state.
pub struct LoopbackDriver {
    buffer: Vec<u8>,
    header: Ghost<Option<(MacAddress, MacAddress, u16)>>,
}

impl LoopbackDriver {
    /// Creates a driver with nothing buffered.
    pub fn new() -> (r: LoopbackDriver)
        ensures
            r.spec_buffered().len() == 0,
            r.spec_last_header() is None,
    {
        LoopbackDriver { buffer: Vec::new(), header: Ghost(None) }
    }
}

impl EthernetDriver for LoopbackDriver {
    closed spec fn spec_buffered(&self) -> Seq<u8> {
        self.buffer@
    }

    closed spec fn spec_last_header(&self) -> Option<(MacAddress, MacAddress, u16)> {
        self.header@
    }

    fn transmit(&mut self, frame: &EthernetFrame) -> (r: Result<(), NetError>)
        ensures
            r is Ok ==> final(self).spec_buffered() == frame.payload@ && final(self).spec_last_header() == Some((frame.destination, frame.source, frame.ethertype)),
            r is Ok,
    {
        self.buffer = subvec(frame.payload.as_slice(), 0, frame.payload.len());
        self.header = Ghost(Some((frame.destination, frame.source, frame.ethertype)));
        proof {
            assert(self.buffer@ =~= frame.payload@);
        }
        Ok(())
    }

    fn receive(&mut self, buffer: &mut Vec<u8>) -> (r: Result<usize, NetError>)
        ensures
            match r {
                Ok(n) => {
                    &&& old(self).spec_buffered().len() > 0
                    &&& n == vstd::math::min(
                        old(buffer)@.len() as int,
                        old(self).spec_buffered().len() as int,
                    )
                    &&& final(buffer)@.len() == old(buffer)@.len()
                    &&& final(buffer)@ =~= old(self).spec_buffered().take(n as int) + old(buffer)@.skip(n as int)
                },
                Err(e) => e == NetError::Device && old(self).spec_buffered().len() == 0 && final(buffer)@ == old(buffer)@,
            },
            *final(self) == *old(self),
    {
        if self.buffer.len() == 0 {
            return Err(NetError::Device);
        }
        let len = if buffer.len() < self.buffer.len() {
            buffer.len()
        } else {
            self.buffer.len()
        };
        let mut i: usize = 0;
        while i < len
            invariant
                i <= len,
                len <= self.buffer@.len(),
                len <= old(buffer)@.len(),
                *self == *old(self),
                buffer@.len() == old(buffer)@.len(),
                forall|j: int| 0 <= j < i ==> buffer@[j] == self.buffer@[j],
                forall|j: int| i <= j < buffer@.len() ==> buffer@[j] == old(buffer)@[j],
            decreases len - i,
        {
            let b = self.buffer[i];
            buffer.set(i, b);
            i += 1;
        }
        Ok(len)
    }
}

} // verus!
