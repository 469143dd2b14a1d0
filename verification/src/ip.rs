//! Loopback IP layer over an Ethernet driver.

use vstd::prelude::*;

use crate::ethernet::{EthernetDriver, EthernetFrame, MacAddress, NetError};

verus! {

/// A four-byte IPv4 address.
#[derive(Clone, Copy, PartialEq, Eq, Structural)]
pub struct Ipv4Addr {
    pub a: u8,
    pub b: u8,
    pub c: u8,
    pub d: u8,
}

/// IP endpoint that loops packets back through its driver.
pub struct LoopbackIp<D: EthernetDriver> {
    driver: D,
    mac: MacAddress,
    addr: Ipv4Addr,
}

impl<D: EthernetDriver> LoopbackIp<D> {
    /// The driver's buffered payload.
    pub closed spec fn spec_buffered(&self) -> Seq<u8> {
        self.driver.spec_buffered()
    }

    /// The header of the last frame the driver took.
    pub closed spec fn spec_last_header(&self) -> Option<(MacAddress, MacAddress, u16)> {
        self.driver.spec_last_header()
    }

    /// The endpoint's hardware address.
    pub closed spec fn spec_mac(&self) -> MacAddress {
        self.mac
    }

    /// Wraps a driver with the endpoint's addresses.
    pub fn new(driver: D, mac: MacAddress, addr: Ipv4Addr) -> (r: LoopbackIp<D>)
        ensures
            r.spec_buffered() == driver.spec_buffered(),
            r.spec_last_header() == driver.spec_last_header(),
            r.spec_mac() == mac,
    {
        LoopbackIp { driver, mac, addr }
    }

    /// Sends a payload to itself: the frame handed to the driver is
    /// addressed from this endpoint to itself, as IPv4 traffic.
    pub fn send(&mut self, payload: &[u8]) -> (r: Result<(), NetError>)
        ensures
            final(self).spec_mac() == old(self).spec_mac(),
            r is Ok ==> final(self).spec_buffered() == payload@ && final(self).spec_last_header()
                == Some((old(self).spec_mac(), old(self).spec_mac(), 0x0800u16)),
    {
        let data = crate::bytes::subvec(payload, 0, payload.len());
        proof {
            assert(data@ =~= payload@);
        }
        let frame = EthernetFrame {
            destination: self.mac,
            source: self.mac,
            ethertype: 0x0800,
            payload: data,
        };
        self.driver.transmit(&frame)
    }

    /// Receives the looped-back payload into `buffer`.
    pub fn receive(&mut self, buffer: &mut Vec<u8>) -> (r: Result<usize, NetError>)
        ensures
            match r {
                Ok(n) => {
                    &&& old(self).spec_buffered().len() > 0
                    &&& n == vstd::math::min(
                        old(buffer)@.len() as int,
                        old(self).spec_buffered().len() as int,
                    )
                    &&& final(buffer)@.len() == old(buffer)@.len()
                    &&& final(buffer)@ =~= old(self).spec_buffered().take(n as int) + old(buffer)@.skip(n as int)
                },
                Err(e) => e == NetError::Device && old(self).spec_buffered().len() == 0 && final(buffer)@ == old(buffer)@,
            },
    {
        self.driver.receive(buffer)
    }
}

} // verus!
