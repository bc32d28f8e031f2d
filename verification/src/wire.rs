//! The packets of the TCP link and how they travel.
//!
//! A packet on the wire is a length of four bytes, highest first, and
//! after it that many bytes: one that tells the kind of the packet, then
//! what the packet carries.

use vstd::prelude::*;

verus! {

/// What two endpoints send each other.
#[derive(Debug)]
pub enum Packet {
    /// The first packet of a connection: the port that the sender
    /// listens on.
    Hello { port: u16 },
    /// Sent when there was nothing else to send for a while.
    KeepAlive,
    /// A frame of the router.
    Frame(Vec<u8>),
}

/// What a `Packet` is to a contract.
pub enum PacketView {
    Hello { port: u16 },
    KeepAlive,
    Frame(Seq<u8>),
}

impl View for Packet {
    type V = PacketView;

    open spec fn view(&self) -> PacketView {
        match self {
            Packet::Hello { port } => PacketView::Hello { port: *port },
            Packet::KeepAlive => PacketView::KeepAlive,
            Packet::Frame(b) => PacketView::Frame(b@),
        }
    }
}

/// Why bytes could not be made into a packet, or a packet into bytes.
#[derive(Debug, Clone, Copy, PartialEq, Eq, Structural)]
pub enum WireError {
    /// The bytes end before the packet does: more have to come.
    Incomplete,
    /// The length is zero, or too short or too long for the kind.
    BadLength,
    /// No kind of packet has this tag.
    BadTag,
    /// The frame is too long for a length of four bytes.
    TooLarge,
}

/// The longest frame that a packet can carry.
pub const MAX_FRAME: usize = 0xffff_fffe;

/// A number below 2^32 as four bytes, highest first.
pub open spec fn be32(n: int) -> Seq<u8> {
    seq![
        (n / 0x100_0000) as u8,
        ((n / 0x1_0000) % 0x100) as u8,
        ((n / 0x100) % 0x100) as u8,
        (n % 0x100) as u8,
    ]
}

/// The number that four bytes stand for, highest first.
pub open spec fn from_be32(b: Seq<u8>) -> int {
    b[0] * 0x100_0000 + b[1] * 0x1_0000 + b[2] * 0x100 + b[3]
}

/// Whether a packet carries a frame that is too long to be sent.
pub open spec fn too_large(p: PacketView) -> bool {
    p matches PacketView::Frame(b) && b.len() > MAX_FRAME
}

/// What a packet carries behind its length: the tag and the fields.
pub open spec fn body_of(p: PacketView) -> Seq<u8> {
    match p {
        PacketView::Hello { port } => seq![0u8, (port / 0x100) as u8, (port % 0x100) as u8],
        PacketView::KeepAlive => seq![1u8],
        PacketView::Frame(b) => seq![2u8] + b,
    }
}

/// The bytes of a packet on the wire.
pub open spec fn wire_form(p: PacketView) -> Seq<u8> {
    be32(body_of(p).len() as int) + body_of(p)
}

/// The packet that `bytes` start with, and how many bytes it takes up.
pub open spec fn parse_packet(bytes: Seq<u8>) -> Result<(PacketView, int), WireError> {
    if bytes.len() < 4 {
        Err(WireError::Incomplete)
    } else {
        let n = from_be32(bytes.subrange(0, 4));
        if n == 0 {
            Err(WireError::BadLength)
        } else if bytes.len() < 4 + n {
            Err(WireError::Incomplete)
        } else if bytes[4] == 0 {
            if n == 3 {
                Ok((PacketView::Hello { port: (bytes[5] * 0x100 + bytes[6]) as u16 }, 7))
            } else {
                Err(WireError::BadLength)
            }
        } else if bytes[4] == 1 {
            if n == 1 {
                Ok((PacketView::KeepAlive, 5))
            } else {
                Err(WireError::BadLength)
            }
        } else if bytes[4] == 2 {
            Ok((PacketView::Frame(bytes.subrange(5, 4 + n)), 4 + n))
        } else {
            Err(WireError::BadTag)
        }
    }
}

/// Four bytes stand for the number that they were made of.
pub proof fn lemma_be32(n: int)
    requires
        0 <= n < 0x1_0000_0000,
    ensures
        be32(n).len() == 4,
        from_be32(be32(n)) == n,
{
}

/// Reading the bytes of a packet gives the packet back, whatever
/// follows them, and says where it ends.
pub proof fn lemma_wire_round_trip(p: PacketView, rest: Seq<u8>)
    requires
        !too_large(p),
    ensures
        parse_packet(wire_form(p) + rest) == Ok::<(PacketView, int), WireError>(
            (p, wire_form(p).len() as int),
        ),
{
    let body = body_of(p);
    let all = wire_form(p) + rest;
    lemma_be32(body.len() as int);
    assert(all.subrange(0, 4) =~= be32(body.len() as int));
    assert(all[4] == body[0]);
    match p {
        PacketView::Hello { port } => {
            assert(all[5] == body[1] && all[6] == body[2]);
            assert((port / 0x100) * 0x100 + port % 0x100 == port);
        },
        PacketView::KeepAlive => {},
        PacketView::Frame(b) => {
            assert(all.subrange(5, 4 + body.len() as int) =~= b);
        },
    }
}

fn put_be32(out: &mut Vec<u8>, n: u32)
    ensures
        final(out)@ == old(out)@ + be32(n as int),
{
    out.push((n / 0x100_0000) as u8);
    out.push(((n / 0x1_0000) % 0x100) as u8);
    out.push(((n / 0x100) % 0x100) as u8);
    out.push((n % 0x100) as u8);
    assert(out@ =~= old(out)@ + be32(n as int));
}

impl Packet {
    /// The bytes of the packet on the wire. A frame that is longer than
    /// `MAX_FRAME` cannot be sent.
    pub fn encode(&self) -> (r: Result<Vec<u8>, WireError>)
        ensures
            match r {
                Ok(bytes) => bytes@ == wire_form(self@) && !too_large(self@),
                Err(e) => e == WireError::TooLarge && too_large(self@),
            },
    {
        let mut out: Vec<u8> = Vec::new();
        match self {
            Packet::Hello { port } => {
                put_be32(&mut out, 3);
                out.push(0);
                out.push((*port / 0x100) as u8);
                out.push((*port % 0x100) as u8);
                assert(out@ =~= wire_form(self@));
            },
            Packet::KeepAlive => {
                put_be32(&mut out, 1);
                out.push(1);
                assert(out@ =~= wire_form(self@));
            },
            Packet::Frame(b) => {
                if b.len() > MAX_FRAME {
                    return Err(WireError::TooLarge);
                }
                put_be32(&mut out, (b.len() + 1) as u32);
                out.push(2);
                let ghost head = out@;
                out.extend_from_slice(b.as_slice());
                assert(out@ =~= head + b@);
                assert(out@ =~= wire_form(self@));
            },
        }
        Ok(out)
    }

    /// Reads the packet that `bytes` start with, and says how many bytes
    /// it takes up. `Incomplete` means that the packet may still come:
    /// the bytes so far are the beginning of one.
    pub fn decode(bytes: &[u8]) -> (r: Result<(Packet, usize), WireError>)
        ensures
            match r {
                Ok((p, n)) => parse_packet(bytes@) == Ok::<(PacketView, int), WireError>(
                    (p@, n as int),
                ),
                Err(e) => parse_packet(bytes@) == Err::<(PacketView, int), WireError>(e),
            },
    {
        if bytes.len() < 4 {
            return Err(WireError::Incomplete);
        }
        let n: u64 = (bytes[0] as u64) * 0x100_0000 + (bytes[1] as u64) * 0x1_0000 + (
        bytes[2] as u64) * 0x100 + (bytes[3] as u64);
        assert(bytes@.subrange(0, 4)[0] == bytes@[0] && bytes@.subrange(0, 4)[1] == bytes@[1]
            && bytes@.subrange(0, 4)[2] == bytes@[2] && bytes@.subrange(0, 4)[3] == bytes@[3]);
        if n == 0 {
            return Err(WireError::BadLength);
        }
        if ((bytes.len() - 4) as u64) < n {
            return Err(WireError::Incomplete);
        }
        let len = n as usize;
        let tag = bytes[4];
        if tag == 0 {
            if len == 3 {
                let port: u16 = (bytes[5] as u16) * 0x100 + (bytes[6] as u16);
                Ok((Packet::Hello { port }, 7))
            } else {
                Err(WireError::BadLength)
            }
        } else if tag == 1 {
            if len == 1 {
                Ok((Packet::KeepAlive, 5))
            } else {
                Err(WireError::BadLength)
            }
        } else if tag == 2 {
            let body = vstd::slice::slice_to_vec(vstd::slice::slice_subrange(bytes, 5, 4 + len));
            Ok((Packet::Frame(body), 4 + len))
        } else {
            Err(WireError::BadTag)
        }
    }
}

/// The wait before the first try to connect again, in milliseconds.
pub const BACKOFF_START: u64 = 250;

/// The longest wait between two tries, in milliseconds.
pub const BACKOFF_CAP: u64 = 30_000;

/// After how long a silence a keep-alive is sent, in milliseconds.
pub const KEEPALIVE_AFTER: u64 = 10_000;

/// After how long a silence of the other side the connection is given
/// up, in milliseconds.
pub const TIMEOUT_AFTER: u64 = 30_000;

/// The wait after a wait of `delay`: twice as long, up to the cap.
pub open spec fn backoff_after(delay: u64) -> u64 {
    if delay >= BACKOFF_CAP / 2 {
        BACKOFF_CAP
    } else if delay < BACKOFF_START {
        BACKOFF_START
    } else {
        (2 * delay) as u64
    }
}

/// The wait before the next try to connect, given the one before.
pub fn next_backoff(delay: u64) -> (r: u64)
    ensures
        r == backoff_after(delay),
        BACKOFF_START <= r <= BACKOFF_CAP,
        delay <= BACKOFF_CAP ==> r >= delay,
{
    if delay >= BACKOFF_CAP / 2 {
        BACKOFF_CAP
    } else if delay < BACKOFF_START {
        BACKOFF_START
    } else {
        2 * delay
    }
}

/// What to do with a connection on which nothing happens.
#[derive(Debug, Clone, Copy, PartialEq, Eq, Structural)]
pub enum Idle {
    /// Nothing yet
    Wait,
    /// Send a keep-alive
    KeepAlive,
    /// Close the connection and start to connect again
    Close,
}

/// What to do with a connection that has sent nothing for `sent_ago`
/// milliseconds and received nothing for `heard_ago`.
pub fn on_idle(sent_ago: u64, heard_ago: u64) -> (r: Idle)
    ensures
        r == if heard_ago >= TIMEOUT_AFTER {
            Idle::Close
        } else if sent_ago >= KEEPALIVE_AFTER {
            Idle::KeepAlive
        } else {
            Idle::Wait
        },
{
    if heard_ago >= TIMEOUT_AFTER {
        Idle::Close
    } else if sent_ago >= KEEPALIVE_AFTER {
        Idle::KeepAlive
    } else {
        Idle::Wait
    }
}

} // verus!
