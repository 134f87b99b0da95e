//! Packets of the client protocol: a four-byte big-endian length followed
//! by that many bytes.
use vstd::prelude::*;
use crate::bignum::be_u64;
use crate::encoding::{Encodable, append_bytes, be_value};
use crate::mod_numbers::fixed_be;

verus! {

/// The frame of a packet: its length (cut to 32 bits) on four big-endian
/// bytes, then the packet.
pub open spec fn frame(buf: Seq<u8>) -> Seq<u8> {
    fixed_be(buf.len() % 0x1_0000_0000, 4) + buf
}

/// Writes packets to a sink.
pub struct PacketWriter<T>(T);

impl<T> PacketWriter<T> {
    /// The sink packets are written to.
    pub closed spec fn sink(&self) -> T {
        self.0
    }

    pub fn new(writer: T) -> (r: Self)
        ensures
            r.sink() == writer,
    {
        PacketWriter(writer)
    }

    /// Gives the sink back.
    pub fn writer(self) -> (r: T)
        ensures
            r == self.sink(),
    {
        self.0
    }
}

impl PacketWriter<Vec<u8>> {
    /// Appends a framed packet to the sink; returns the bytes written.
    pub fn write(&mut self, buf: &[u8]) -> (r: usize)
        requires
            buf@.len() + 4 <= usize::MAX,
        ensures
            final(self).sink()@ == old(self).sink()@ + frame(buf@),
            r == buf@.len() + 4,
    {
        let n = buf.len() as u64 % 0x1_0000_0000;
        let header: Vec<u8> = vec![(n / 0x100_0000) as u8, (n / 0x1_0000 % 0x100) as u8, (n / 0x100 % 0x100) as u8, (n % 0x100) as u8];
        proof {
            reveal_with_fuel(fixed_be, 5);
            assert(header@ =~= fixed_be(n as nat, 4));
        }
        append_bytes(&mut self.0, header.as_slice());
        append_bytes(&mut self.0, buf);
        assert(self.0@ =~= old(self).sink()@ + frame(buf@));
        buf.len() + 4
    }

    /// Encodes a value and writes it as one packet.
    pub fn send<E: Encodable>(&mut self, encodable: E)
        requires
            encodable.encodable(),
            encodable.encoding().len() + 4 <= usize::MAX,
        ensures
            final(self).sink()@ == old(self).sink()@ + frame(encodable.encoding()),
    {
        let bytes = encodable.encode();
        self.write(bytes.as_slice());
    }
}

/// Reads packets from a source.
pub struct PacketReader<T>(T);

impl<T> PacketReader<T> {
    /// The source packets are read from.
    pub closed spec fn source(&self) -> T {
        self.0
    }

    pub fn new(reader: T) -> (r: Self)
        ensures
            r.source() == reader,
    {
        PacketReader(reader)
    }

    /// Gives the source back.
    pub fn reader(self) -> (r: T)
        ensures
            r == self.source(),
    {
        self.0
    }
}

/// The packet at the front of `s` and what follows it, when `s` holds a
/// whole one.
pub open spec fn unframe(s: Seq<u8>) -> Option<(Seq<u8>, Seq<u8>)> {
    if s.len() < 4 {
        None
    } else {
        let n = be_value(s.subrange(0, 4));
        if 4 + n <= s.len() {
            Some((s.subrange(4, (4 + n) as int), s.subrange((4 + n) as int, s.len() as int)))
        } else {
            None
        }
    }
}

impl PacketReader<Vec<u8>> {
    /// Takes the packet at the front of the source; a source that does not
    /// hold a whole packet is left as it is.
    pub fn read(&mut self) -> (r: Option<Vec<u8>>)
        ensures
            match unframe(old(self).source()@) {
                Some((packet, rest)) => r matches Some(p) && p@ == packet && final(self).source()@ == rest,
                None => r is None && final(self).source()@ == old(self).source()@,
            },
    {
        let len = self.0.len();
        if len < 4 {
            return None;
        }
        let size = match be_u64(vstd::slice::slice_subrange(self.0.as_slice(), 0, 4)) {
            Some(v) => v,
            None => return None,
        };
        if size > (len - 4) as u64 {
            return None;
        }
        let end = 4 + size as usize;
        let packet = crate::env::copy_bytes(vstd::slice::slice_subrange(self.0.as_slice(), 4, end));
        let rest = crate::env::copy_bytes(vstd::slice::slice_subrange(self.0.as_slice(), end, len));
        self.0 = rest;
        Some(packet)
    }
}

} // verus!
