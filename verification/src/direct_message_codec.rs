//! The framing of one-to-one messages: a four-byte big-endian length, then
//! the envelope bytes; answered by a one-byte acknowledgement.
use vstd::prelude::*;
use vstd::string::StringExecFns;
use crate::text::{decimal, decimal_text};

verus! {

/// The stream protocol 1:1 messages ride, versioned so that a framing change
/// is a protocol older peers do not negotiate rather than a frame they
/// misread.
pub const DIRECT_MESSAGE_PROTOCOL: &'static str = "/distro/direct/1.0.0";

/// Bytes of the length prefix.
pub const LENGTH_PREFIX_BYTES: usize = 4;

/// The receiver's answer to one direct message.
#[derive(Debug, Clone, Copy, PartialEq, Eq, Structural)]
pub enum DirectMessageAck {
    /// The envelope decoded and was handed on.
    Accepted,
    /// The envelope was refused: rate limited, malformed, or unmappable.
    Refused,
}

/// The byte an acknowledgement is written as.
pub open spec fn ack_code(ack: DirectMessageAck) -> u8 {
    match ack {
        DirectMessageAck::Accepted => 0,
        DirectMessageAck::Refused => 1,
    }
}

/// The acknowledgement a byte reads as: anything but the accepted code is a
/// refusal, so a code a later peer invents is never read as success.
pub open spec fn ack_of_code(code: u8) -> DirectMessageAck {
    if code == 0 {
        DirectMessageAck::Accepted
    } else {
        DirectMessageAck::Refused
    }
}

impl DirectMessageAck {
    /// The byte this acknowledgement is written as.
    pub fn code(&self) -> (r: u8)
        ensures
            r == ack_code(*self),
    {
        match self {
            DirectMessageAck::Accepted => 0,
            DirectMessageAck::Refused => 1,
        }
    }

    /// The acknowledgement `code` reads as.
    pub fn from_code(code: u8) -> (r: DirectMessageAck)
        ensures
            r == ack_of_code(code),
    {
        if code == 0 {
            DirectMessageAck::Accepted
        } else {
            DirectMessageAck::Refused
        }
    }
}

/// Writing an acknowledgement and reading it back gives the same one.
pub proof fn law_ack_round_trips(ack: DirectMessageAck)
    ensures
        ack_of_code(ack_code(ack)) == ack,
{
}

/// Why a frame is refused. The size refusals are decided from a length
/// alone, so nothing is allocated for an oversize claim.
#[derive(Debug, Clone, Copy, PartialEq, Eq, Structural)]
pub enum DirectFrameError {
    /// An incoming prefix claims more bytes than the cap.
    ClaimsTooMuch { length: u32, cap: usize },
    /// An outgoing frame is longer than the cap, or than a prefix can say.
    TooLong { bytes: usize, cap: usize },
    /// The bytes end before the part being read is complete: the prefix, or
    /// the body it announces. Both counts are of that part alone.
    Truncated { needed: usize, available: usize },
}

/// The sentence a [`DirectFrameError`] is reported with.
pub open spec fn frame_error_text(e: DirectFrameError) -> Seq<char> {
    match e {
        DirectFrameError::ClaimsTooMuch { length, cap } => "direct message frame claims "@
            + decimal_text(length as nat) + " bytes, over the "@ + decimal_text(cap as nat)
            + "-byte cap"@,
        DirectFrameError::TooLong { bytes, cap } => "direct message frame is "@ + decimal_text(
            bytes as nat,
        ) + " bytes, over the "@ + decimal_text(cap as nat) + "-byte cap"@,
        DirectFrameError::Truncated { needed, available } => "direct message frame ends after "@
            + decimal_text(available as nat) + " of "@ + decimal_text(needed as nat) + " bytes"@,
    }
}

impl DirectFrameError {
    /// The reason, as one sentence a log line can carry.
    pub fn describe(&self) -> (r: String)
        ensures
            r@ == frame_error_text(*self),
    {
        match *self {
            DirectFrameError::ClaimsTooMuch { length, cap } => {
                let mut out = "direct message frame claims ".to_owned();
                out.append(decimal(length as u64).as_str());
                out.append(" bytes, over the ");
                out.append(decimal(cap as u64).as_str());
                out.append("-byte cap");
                out
            },
            DirectFrameError::TooLong { bytes, cap } => {
                let mut out = "direct message frame is ".to_owned();
                out.append(decimal(bytes as u64).as_str());
                out.append(" bytes, over the ");
                out.append(decimal(cap as u64).as_str());
                out.append("-byte cap");
                out
            },
            DirectFrameError::Truncated { needed, available } => {
                let mut out = "direct message frame ends after ".to_owned();
                out.append(decimal(available as u64).as_str());
                out.append(" of ");
                out.append(decimal(needed as u64).as_str());
                out.append(" bytes");
                out
            },
        }
    }
}

/// The number a big-endian four-byte prefix holds.
pub open spec fn be32(prefix: [u8; 4]) -> int {
    prefix[0] as int * 16777216 + prefix[1] as int * 65536 + prefix[2] as int * 256 + prefix[3] as int
}

/// The length-prefixed framing of 1:1 messages under one size cap.
#[derive(Debug, Clone, Copy, PartialEq, Eq, Structural)]
pub struct DirectMessageCodec {
    max_frame_bytes: usize,
}

impl DirectMessageCodec {
    pub closed spec fn spec_max_frame_bytes(self) -> usize {
        self.max_frame_bytes
    }

    /// The protocol name.
    pub fn protocol() -> (r: &'static str)
        ensures
            r@ == DIRECT_MESSAGE_PROTOCOL@,
    {
        DIRECT_MESSAGE_PROTOCOL
    }

    /// Framing that refuses frames over `max_frame_bytes`.
    pub fn new(max_frame_bytes: usize) -> (r: DirectMessageCodec)
        ensures
            r.spec_max_frame_bytes() == max_frame_bytes,
    {
        DirectMessageCodec { max_frame_bytes }
    }

    /// The cap.
    pub fn max_frame_bytes(&self) -> (r: usize)
        ensures
            r == self.spec_max_frame_bytes(),
    {
        self.max_frame_bytes
    }

    /// The length an incoming prefix claims, refused over the cap before any
    /// of the body is read.
    pub fn frame_length(&self, prefix: [u8; 4]) -> (r: Result<usize, DirectFrameError>)
        ensures
            be32(prefix) <= self.spec_max_frame_bytes() ==> r == Ok::<usize, DirectFrameError>(be32(prefix) as usize),
            be32(prefix) > self.spec_max_frame_bytes() ==> r == Err::<usize, DirectFrameError>(
                DirectFrameError::ClaimsTooMuch { length: be32(prefix) as u32, cap: self.spec_max_frame_bytes() },
            ),
    {
        let length: u32 = (prefix[0] as u32) * 16777216 + (prefix[1] as u32) * 65536 + (prefix[2] as u32) * 256
            + (prefix[3] as u32);
        if length as usize > self.max_frame_bytes {
            Err(DirectFrameError::ClaimsTooMuch { length, cap: self.max_frame_bytes })
        } else {
            Ok(length as usize)
        }
    }

    /// The prefix for an outgoing frame of `bytes` bytes, refused over the cap
    /// or over what four bytes can say.
    pub fn frame_prefix(&self, bytes: usize) -> (r: Result<[u8; 4], DirectFrameError>)
        ensures
            bytes <= self.spec_max_frame_bytes() && bytes <= u32::MAX ==> (r matches Ok(prefix) && be32(prefix)
                == bytes),
            !(bytes <= self.spec_max_frame_bytes() && bytes <= u32::MAX) ==> r == Err::<[u8; 4], DirectFrameError>(
                DirectFrameError::TooLong { bytes, cap: self.spec_max_frame_bytes() },
            ),
    {
        if bytes > self.max_frame_bytes || bytes > 4294967295 {
            return Err(DirectFrameError::TooLong { bytes, cap: self.max_frame_bytes });
        }
        let n = bytes as u32;
        let prefix: [u8; 4] = [(n / 16777216) as u8, ((n / 65536) % 256) as u8, ((n / 256) % 256) as u8, (n % 256) as u8];
        assert(be32(prefix) == n) by {
            assert(prefix[0] == n / 16777216);
            assert(prefix[1] == (n / 65536) % 256);
            assert(prefix[2] == (n / 256) % 256);
            assert(prefix[3] == n % 256);
        }
        Ok(prefix)
    }

    /// A whole outgoing frame: the prefix, then `body`.
    pub fn encode_frame(&self, body: &[u8]) -> (r: Result<Vec<u8>, DirectFrameError>)
        ensures
            body@.len() <= self.spec_max_frame_bytes() && body@.len() <= u32::MAX ==> (r matches Ok(frame)
                && frame@.len() == body@.len() + 4 && frame@.skip(4) == body@ && be32(
                [frame@[0], frame@[1], frame@[2], frame@[3]],
            ) == body@.len()),
            !(body@.len() <= self.spec_max_frame_bytes() && body@.len() <= u32::MAX) ==> r == Err::<Vec<u8>, DirectFrameError>(
                DirectFrameError::TooLong { bytes: body@.len() as usize, cap: self.spec_max_frame_bytes() },
            ),
    {
        let prefix = self.frame_prefix(body.len())?;
        let mut frame: Vec<u8> = Vec::new();
        frame.push(prefix[0]);
        frame.push(prefix[1]);
        frame.push(prefix[2]);
        frame.push(prefix[3]);
        let mut i: usize = 0;
        while i < body.len()
            invariant
                0 <= i <= body@.len(),
                frame@.len() == 4 + i,
                frame@[0] == prefix[0] && frame@[1] == prefix[1] && frame@[2] == prefix[2] && frame@[3]
                    == prefix[3],
                frame@.skip(4) == body@.take(i as int),
            decreases body@.len() - i,
        {
            frame.push(body[i]);
            i = i + 1;
            assert(frame@.skip(4) =~= body@.take(i as int));
        }
        assert(body@.take(body@.len() as int) =~= body@);
        assert([frame@[0], frame@[1], frame@[2], frame@[3]] =~= prefix);
        Ok(frame)
    }

    /// Reads one frame from the front of `wire`: the prefix, checked against
    /// the cap before anything else, then the body it announces. Bytes after
    /// the frame are left alone.
    pub fn decode_frame(&self, wire: &[u8]) -> (r: Result<Vec<u8>, DirectFrameError>)
        ensures
            wire@.len() < 4 ==> r == Err::<Vec<u8>, DirectFrameError>(
                DirectFrameError::Truncated { needed: 4, available: wire@.len() as usize },
            ),
            wire@.len() >= 4 ==> {
                let length = be32([wire@[0], wire@[1], wire@[2], wire@[3]]);
                if length > self.spec_max_frame_bytes() {
                    r == Err::<Vec<u8>, DirectFrameError>(
                        DirectFrameError::ClaimsTooMuch { length: length as u32, cap: self.spec_max_frame_bytes() },
                    )
                } else if wire@.len() - 4 < length {
                    r == Err::<Vec<u8>, DirectFrameError>(
                        DirectFrameError::Truncated { needed: length as usize, available: (wire@.len() - 4) as usize },
                    )
                } else {
                    r matches Ok(body) && body@ == wire@.subrange(4, 4 + length)
                }
            },
    {
        if wire.len() < 4 {
            return Err(DirectFrameError::Truncated { needed: 4, available: wire.len() });
        }
        let prefix: [u8; 4] = [wire[0], wire[1], wire[2], wire[3]];
        assert(prefix =~= [wire@[0], wire@[1], wire@[2], wire@[3]]);
        let length = self.frame_length(prefix)?;
        if wire.len() - 4 < length {
            return Err(DirectFrameError::Truncated { needed: length, available: wire.len() - 4 });
        }
        let available: usize = wire.len();
        let mut body: Vec<u8> = Vec::new();
        let mut i: usize = 0;
        while i < length
            invariant
                0 <= i <= length,
                available == wire@.len(),
                4 + length <= available,
                body@ == wire@.subrange(4, 4 + i as int),
            decreases length - i,
        {
            body.push(wire[4 + i]);
            i = i + 1;
            assert(body@ =~= wire@.subrange(4, 4 + i as int));
        }
        Ok(body)
    }
}

/// What a codec writes as a frame's prefix ([`DirectMessageCodec::frame_prefix`])
/// the same codec reads back ([`DirectMessageCodec::frame_length`]) as that
/// frame's length, never as a refusal.
pub proof fn law_prefix_round_trips(codec: DirectMessageCodec, bytes: usize, prefix: [u8; 4])
    requires
        bytes <= codec.spec_max_frame_bytes(),
        bytes <= u32::MAX,
        be32(prefix) == bytes,
    ensures
        !(be32(prefix) > codec.spec_max_frame_bytes()),
        be32(prefix) as usize == bytes,
{
}

/// A frame written by [`DirectMessageCodec::encode_frame`] reads back, by the
/// same codec's [`DirectMessageCodec::decode_frame`], as the body it carried:
/// its prefix is within the cap, the whole body is there, and it is the body.
pub proof fn law_frame_round_trips(codec: DirectMessageCodec, body: Seq<u8>, frame: Seq<u8>)
    requires
        body.len() <= codec.spec_max_frame_bytes(),
        frame.len() == body.len() + 4,
        frame.skip(4) == body,
        be32([frame[0], frame[1], frame[2], frame[3]]) == body.len(),
    ensures
        frame.len() >= 4,
        !(be32([frame[0], frame[1], frame[2], frame[3]]) > codec.spec_max_frame_bytes()),
        !(frame.len() - 4 < be32([frame[0], frame[1], frame[2], frame[3]])),
        frame.subrange(4, 4 + be32([frame[0], frame[1], frame[2], frame[3]])) == body,
{
    assert(frame.subrange(4, 4 + body.len() as int) =~= frame.skip(4));
}

} // verus!
