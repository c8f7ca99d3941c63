use vstd::prelude::*;

verus! {

/// Packet and byte counters of one peer. Counters wrap around on overflow.
#[derive(Debug)]
pub struct UdpStats {
    sent_packets: usize,
    sent_bytes: usize,
    received_packets: usize,
    received_bytes: usize,
}

impl Default for UdpStats {
    fn default() -> (r: Self)
        ensures
            r.sent_packets_spec() == 0,
            r.sent_bytes_spec() == 0,
            r.received_packets_spec() == 0,
            r.received_bytes_spec() == 0,
    {
        UdpStats { sent_packets: 0, sent_bytes: 0, received_packets: 0, received_bytes: 0 }
    }
}

impl UdpStats {
    pub closed spec fn sent_packets_spec(&self) -> usize {
        self.sent_packets
    }

    pub closed spec fn sent_bytes_spec(&self) -> usize {
        self.sent_bytes
    }

    pub closed spec fn received_packets_spec(&self) -> usize {
        self.received_packets
    }

    pub closed spec fn received_bytes_spec(&self) -> usize {
        self.received_bytes
    }

    pub fn sent_packets(&self) -> (r: usize)
        ensures
            r == self.sent_packets_spec(),
    {
        self.sent_packets
    }

    pub fn sent_bytes(&self) -> (r: usize)
        ensures
            r == self.sent_bytes_spec(),
    {
        self.sent_bytes
    }

    pub fn received_packets(&self) -> (r: usize)
        ensures
            r == self.received_packets_spec(),
    {
        self.received_packets
    }

    pub fn received_bytes(&self) -> (r: usize)
        ensures
            r == self.received_bytes_spec(),
    {
        self.received_bytes
    }

    /// Counts one datagram of `size` bytes sent.
    pub fn record_sent(&mut self, size: usize)
        ensures
            final(self).sent_packets_spec() == old(self).sent_packets_spec().wrapping_add(1),
            final(self).sent_bytes_spec() == old(self).sent_bytes_spec().wrapping_add(size),
            final(self).received_packets_spec() == old(self).received_packets_spec(),
            final(self).received_bytes_spec() == old(self).received_bytes_spec(),
    {
        self.sent_packets = self.sent_packets.wrapping_add(1);
        self.sent_bytes = self.sent_bytes.wrapping_add(size);
    }

    /// Counts one datagram of `size` bytes received.
    pub fn record_received(&mut self, size: usize)
        ensures
            final(self).received_packets_spec() == old(self).received_packets_spec().wrapping_add(1),
            final(self).received_bytes_spec() == old(self).received_bytes_spec().wrapping_add(size),
            final(self).sent_packets_spec() == old(self).sent_packets_spec(),
            final(self).sent_bytes_spec() == old(self).sent_bytes_spec(),
    {
        self.received_packets = self.received_packets.wrapping_add(1);
        self.received_bytes = self.received_bytes.wrapping_add(size);
    }
}

} // verus!
