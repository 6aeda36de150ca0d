//! A frame is `channel` (u32, little endian), `flags` (one byte), then the payload.
use vstd::prelude::*;

verus! {

/// Channel 0 carries control messages; every attach gets its own data channel.
pub const CONTROL_CHANNEL: u32 = 0;

/// Length of the frame header: four bytes of channel, one byte of flags.
pub const HEADER_LEN: usize = 5;

#[derive(Debug, Clone, PartialEq, Eq)]
pub struct Frame {
    pub channel: u32,
    pub flags: u8,
    pub payload: Vec<u8>,
}

#[derive(Debug, Clone, Copy, PartialEq, Eq)]
pub enum FrameError {
    /// Fewer bytes than the five-byte header.
    TooShort,
}

impl FrameError {
    /// The human-readable description of the error.
    pub fn message(&self) -> (r: String)
        ensures
            r@ == "frame shorter than 5-byte header"@,
    {
        String::from_str("frame shorter than 5-byte header")
    }
}

/// The four little-endian bytes of `c`.
pub open spec fn le_bytes(c: u32) -> Seq<u8> {
    seq![c as u8, (c >> 8) as u8, (c >> 16) as u8, (c >> 24) as u8]
}

/// The `u32` whose little-endian bytes are `b0..b3`.
pub open spec fn from_le(b0: u8, b1: u8, b2: u8, b3: u8) -> u32 {
    (b0 as u32) | ((b1 as u32) << 8) | ((b2 as u32) << 16) | ((b3 as u32) << 24)
}

/// The bytes of a frame on the wire.
pub open spec fn spec_encode(channel: u32, flags: u8, payload: Seq<u8>) -> Seq<u8> {
    le_bytes(channel) + seq![flags] + payload
}

/// What `decode` makes of `data`: `(channel, flags, payload)`, or `None` when it is
/// shorter than the header.
pub open spec fn spec_decode(data: Seq<u8>) -> Option<(u32, u8, Seq<u8>)> {
    if data.len() < 5 {
        None
    } else {
        Some(
            (
                from_le(data[0], data[1], data[2], data[3]),
                data[4],
                data.subrange(5, data.len() as int),
            ),
        )
    }
}

impl Frame {
    /// A frame with no flags set.
    pub fn new(channel: u32, payload: Vec<u8>) -> (f: Self)
        ensures
            f.channel == channel,
            f.flags == 0,
            f.payload@ == payload@,
    {
        Frame { channel, flags: 0, payload }
    }

    pub fn encode(&self) -> (buf: Vec<u8>)
        ensures
            buf@ == spec_encode(self.channel, self.flags, self.payload@),
    {
        let c = self.channel;
        let mut buf: Vec<u8> = Vec::with_capacity(5);
        buf.push(c as u8);
        buf.push((c >> 8) as u8);
        buf.push((c >> 16) as u8);
        buf.push((c >> 24) as u8);
        buf.push(self.flags);
        let mut i: usize = 0;
        while i < self.payload.len()
            invariant
                i <= self.payload.len(),
                buf@ == le_bytes(c) + seq![self.flags] + self.payload@.subrange(0, i as int),
            decreases self.payload.len() - i,
        {
            buf.push(self.payload[i]);
            i = i + 1;
            assert(buf@ =~= le_bytes(c) + seq![self.flags] + self.payload@.subrange(0, i as int));
        }
        assert(self.payload@.subrange(0, self.payload.len() as int) =~= self.payload@);
        buf
    }

    pub fn decode(data: &[u8]) -> (r: Result<Frame, FrameError>)
        ensures
            match spec_decode(data@) {
                None => r == Err::<Frame, FrameError>(FrameError::TooShort),
                Some((channel, flags, payload)) => r matches Ok(f) && f.channel == channel
                    && f.flags == flags && f.payload@ == payload,
            },
    {
        if data.len() < 5 {
            return Err(FrameError::TooShort);
        }
        let channel = (data[0] as u32) | ((data[1] as u32) << 8) | ((data[2] as u32) << 16) | ((
        data[3] as u32) << 24);
        let mut payload: Vec<u8> = Vec::new();
        let mut i: usize = 5;
        while i < data.len()
            invariant
                5 <= i <= data.len(),
                payload@ == data@.subrange(5, i as int),
            decreases data.len() - i,
        {
            payload.push(data[i]);
            i = i + 1;
            assert(payload@ =~= data@.subrange(5, i as int));
        }
        Ok(Frame { channel, flags: data[4], payload })
    }
}

/// Decoding an encoded frame gives back its channel, flags and payload.
pub proof fn decode_encode(channel: u32, flags: u8, payload: Seq<u8>)
    ensures
        spec_decode(spec_encode(channel, flags, payload)) == Some((channel, flags, payload)),
{
    let e = spec_encode(channel, flags, payload);
    assert(from_le(channel as u8, (channel >> 8) as u8, (channel >> 16) as u8, (channel >> 24) as u8)
        == channel) by (bit_vector);
    assert(e.subrange(5, e.len() as int) =~= payload);
}

/// Encoding a decoded frame gives back the bytes it was decoded from.
pub proof fn encode_decode(data: Seq<u8>)
    requires
        data.len() >= 5,
    ensures
        spec_decode(data) matches Some((c, fl, p)) && spec_encode(c, fl, p) == data,
{
    let (b0, b1, b2, b3) = (data[0], data[1], data[2], data[3]);
    let c = from_le(b0, b1, b2, b3);
    assert(c as u8 == b0 && (c >> 8) as u8 == b1 && (c >> 16) as u8 == b2 && (c >> 24) as u8
        == b3) by (bit_vector)
        requires
            c == (b0 as u32) | ((b1 as u32) << 8) | ((b2 as u32) << 16) | ((b3 as u32) << 24),
    ;
    assert(spec_encode(c, data[4], data.subrange(5, data.len() as int)) =~= data);
}

/// An encoded frame is the five-byte header followed by the payload.
pub proof fn encoded_length(channel: u32, flags: u8, payload: Seq<u8>)
    ensures
        spec_encode(channel, flags, payload).len() == 5 + payload.len(),
{
}

} // verus!
