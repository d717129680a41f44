//! Binary encoding of protocol messages.
//!
//! A frame starts with one tag byte naming the message kind; integers follow
//! in big-endian order:
//! - `Welcome`: tag 0, then the identifier (2 bytes);
//! - `Goodbye`: tag 1, then the identifier (2 bytes);
//! - `ServerUpdate`: tag 2, then one 14-byte record per entity;
//! - `ClientUpdate`: tag 3, then one 14-byte record.
//!
//! A record is the identifier (2 bytes), then the bit patterns of x, y and the
//! rotation (4 bytes each).

use crate::messages::{GameServerMessage, MessageModel, Position, RemoteState, State};
use vstd::prelude::*;

verus! {

pub const TAG_WELCOME: u8 = 0;

pub const TAG_GOODBYE: u8 = 1;

pub const TAG_SERVER_UPDATE: u8 = 2;

pub const TAG_CLIENT_UPDATE: u8 = 3;

/// Length in bytes of one encoded pose.
pub const RECORD_LEN: usize = 14;

/// Why a frame could not be decoded.
#[derive(Clone, Copy, Debug, PartialEq, Eq, Structural)]
pub enum DecodeError {
    /// The frame holds no byte at all.
    Empty,
    /// The first byte names no message kind.
    UnknownTag(u8),
    /// The frame's length does not fit its message kind.
    BadLength,
}

pub open spec fn be16(v: u16) -> Seq<u8> {
    seq![(v >> 8u16) as u8, (v & 0xffu16) as u8]
}

pub open spec fn be32(v: u32) -> Seq<u8> {
    seq![
        (v >> 24u32) as u8,
        ((v >> 16u32) & 0xffu32) as u8,
        ((v >> 8u32) & 0xffu32) as u8,
        (v & 0xffu32) as u8,
    ]
}

pub open spec fn pose_bytes(id: u16, p: Position, rotation: u32) -> Seq<u8> {
    be16(id) + be32(p.x) + be32(p.y) + be32(rotation)
}

pub open spec fn remote_record(s: RemoteState) -> Seq<u8> {
    pose_bytes(s.id, s.position, s.rotation)
}

pub open spec fn state_record(s: State) -> Seq<u8> {
    pose_bytes(s.id, s.position, s.rotation)
}

/// The records of a list of poses, one after the other.
pub open spec fn records(s: Seq<RemoteState>) -> Seq<u8>
    decreases s.len(),
{
    if s.len() == 0 {
        Seq::empty()
    } else {
        records(s.drop_last()) + remote_record(s.last())
    }
}

/// The frame that encodes a message.
pub open spec fn encoded(m: MessageModel) -> Seq<u8> {
    match m {
        MessageModel::Welcome(id) => seq![TAG_WELCOME] + be16(id),
        MessageModel::Goodbye(id) => seq![TAG_GOODBYE] + be16(id),
        MessageModel::ServerUpdate(s) => seq![TAG_SERVER_UPDATE] + records(s),
        MessageModel::ClientUpdate(s) => seq![TAG_CLIENT_UPDATE] + state_record(s),
    }
}

/// The message that a frame encodes, if any.
pub open spec fn decoded(b: Seq<u8>) -> Option<MessageModel> {
    if exists|m: MessageModel| encoded(m) == b {
        Some(choose|m: MessageModel| encoded(m) == b)
    } else {
        None
    }
}

/// The error that `decode` reports for a frame that encodes no message.
pub open spec fn decode_error(b: Seq<u8>) -> DecodeError {
    if b.len() == 0 {
        DecodeError::Empty
    } else if b[0] > TAG_CLIENT_UPDATE {
        DecodeError::UnknownTag(b[0])
    } else {
        DecodeError::BadLength
    }
}

proof fn lemma_be16_injective(a: u16, b: u16)
    requires
        be16(a) == be16(b),
    ensures
        a == b,
{
    assert(be16(a)[0] == be16(b)[0] && be16(a)[1] == be16(b)[1]);
    assert(((a >> 8u16) as u8 == (b >> 8u16) as u8 && (a & 0xffu16) as u8 == (b & 0xffu16) as u8)
        ==> a == b) by (bit_vector);
}

proof fn lemma_be32_injective(a: u32, b: u32)
    requires
        be32(a) == be32(b),
    ensures
        a == b,
{
    assert(be32(a)[0] == be32(b)[0] && be32(a)[1] == be32(b)[1]);
    assert(be32(a)[2] == be32(b)[2] && be32(a)[3] == be32(b)[3]);
    assert(((a >> 24u32) as u8 == (b >> 24u32) as u8 && ((a >> 16u32) & 0xffu32) as u8 == ((b
        >> 16u32) & 0xffu32) as u8 && ((a >> 8u32) & 0xffu32) as u8 == ((b >> 8u32) & 0xffu32) as u8
        && (a & 0xffu32) as u8 == (b & 0xffu32) as u8) ==> a == b) by (bit_vector);
}

proof fn lemma_pose_bytes_injective(
    id1: u16,
    p1: Position,
    r1: u32,
    id2: u16,
    p2: Position,
    r2: u32,
)
    requires
        pose_bytes(id1, p1, r1) == pose_bytes(id2, p2, r2),
    ensures
        id1 == id2,
        p1 == p2,
        r1 == r2,
{
    let a = pose_bytes(id1, p1, r1);
    let b = pose_bytes(id2, p2, r2);
    assert(a.subrange(0, 2) == b.subrange(0, 2));
    assert(a.subrange(2, 6) == b.subrange(2, 6));
    assert(a.subrange(6, 10) == b.subrange(6, 10));
    assert(a.subrange(10, 14) == b.subrange(10, 14));
    assert(a.subrange(0, 2) =~= be16(id1));
    assert(b.subrange(0, 2) =~= be16(id2));
    assert(a.subrange(2, 6) =~= be32(p1.x));
    assert(b.subrange(2, 6) =~= be32(p2.x));
    assert(a.subrange(6, 10) =~= be32(p1.y));
    assert(b.subrange(6, 10) =~= be32(p2.y));
    assert(a.subrange(10, 14) =~= be32(r1));
    assert(b.subrange(10, 14) =~= be32(r2));
    lemma_be16_injective(id1, id2);
    lemma_be32_injective(p1.x, p2.x);
    lemma_be32_injective(p1.y, p2.y);
    lemma_be32_injective(r1, r2);
}

proof fn lemma_records_len(s: Seq<RemoteState>)
    ensures
        records(s).len() == 14 * s.len(),
    decreases s.len(),
{
    if s.len() > 0 {
        lemma_records_len(s.drop_last());
    }
}

proof fn lemma_records_injective(s: Seq<RemoteState>, t: Seq<RemoteState>)
    requires
        records(s) == records(t),
    ensures
        s == t,
    decreases s.len(),
{
    lemma_records_len(s);
    lemma_records_len(t);
    if s.len() > 0 {
        let n = records(s).len() as int;
        lemma_records_len(s.drop_last());
        lemma_records_len(t.drop_last());
        assert(records(s).subrange(0, n - 14) =~= records(s.drop_last()));
        assert(records(t).subrange(0, n - 14) =~= records(t.drop_last()));
        assert(records(s).subrange(n - 14, n) =~= remote_record(s.last()));
        assert(records(t).subrange(n - 14, n) =~= remote_record(t.last()));
        lemma_records_injective(s.drop_last(), t.drop_last());
        let (a, b) = (s.last(), t.last());
        lemma_pose_bytes_injective(a.id, a.position, a.rotation, b.id, b.position, b.rotation);
        assert(s =~= s.drop_last().push(a));
        assert(t =~= t.drop_last().push(b));
    } else {
        assert(s =~= t);
    }
}

/// What every frame that encodes a message looks like.
pub proof fn lemma_encoded_shape(m: MessageModel)
    ensures
        encoded(m).len() >= 1,
        encoded(m)[0] <= TAG_CLIENT_UPDATE,
        encoded(m)[0] == TAG_WELCOME || encoded(m)[0] == TAG_GOODBYE ==> encoded(m).len() == 3,
        encoded(m)[0] == TAG_SERVER_UPDATE ==> (encoded(m).len() - 1) % 14 == 0,
        encoded(m)[0] == TAG_CLIENT_UPDATE ==> encoded(m).len() == 15,
{
    if let MessageModel::ServerUpdate(s) = m {
        lemma_records_len(s);
    }
}

/// Two messages with the same frame are the same message.
pub proof fn lemma_encoded_injective(m1: MessageModel, m2: MessageModel)
    requires
        encoded(m1) == encoded(m2),
    ensures
        m1 == m2,
{
    let (a, b) = (encoded(m1), encoded(m2));
    assert(a[0] == b[0]);
    assert(a.subrange(1, a.len() as int) == b.subrange(1, b.len() as int));
    match m1 {
        MessageModel::Welcome(x) => {
            if let MessageModel::Welcome(y) = m2 {
                assert(a.subrange(1, 3) =~= be16(x));
                assert(b.subrange(1, 3) =~= be16(y));
                lemma_be16_injective(x, y);
            }
        },
        MessageModel::Goodbye(x) => {
            if let MessageModel::Goodbye(y) = m2 {
                assert(a.subrange(1, 3) =~= be16(x));
                assert(b.subrange(1, 3) =~= be16(y));
                lemma_be16_injective(x, y);
            }
        },
        MessageModel::ServerUpdate(x) => {
            if let MessageModel::ServerUpdate(y) = m2 {
                assert(a.subrange(1, a.len() as int) =~= records(x));
                assert(b.subrange(1, b.len() as int) =~= records(y));
                lemma_records_injective(x, y);
            }
        },
        MessageModel::ClientUpdate(x) => {
            if let MessageModel::ClientUpdate(y) = m2 {
                assert(a.subrange(1, 15) =~= state_record(x));
                assert(b.subrange(1, 15) =~= state_record(y));
                lemma_pose_bytes_injective(
                    x.id,
                    x.position,
                    x.rotation,
                    y.id,
                    y.position,
                    y.rotation,
                );
            }
        },
    }
}

/// Decoding the encoding of any message gives that message back.
pub proof fn lemma_round_trip(m: MessageModel)
    ensures
        decoded(encoded(m)) == Some(m),
{
    let b = encoded(m);
    assert(exists|x: MessageModel| encoded(x) == b);
    let c = choose|x: MessageModel| encoded(x) == b;
    lemma_encoded_injective(c, m);
}

/// A frame that encodes a message decodes to it.
proof fn lemma_decoded_of(m: MessageModel, b: Seq<u8>)
    requires
        encoded(m) == b,
    ensures
        decoded(b) == Some(m),
{
    lemma_round_trip(m);
}

fn push_u16(out: &mut Vec<u8>, v: u16)
    ensures
        final(out)@ == old(out)@ + be16(v),
{
    out.push((v >> 8u16) as u8);
    out.push((v & 0xffu16) as u8);
    assert(final(out)@ =~= old(out)@ + be16(v));
}

fn push_u32(out: &mut Vec<u8>, v: u32)
    ensures
        final(out)@ == old(out)@ + be32(v),
{
    out.push((v >> 24u32) as u8);
    out.push(((v >> 16u32) & 0xffu32) as u8);
    out.push(((v >> 8u32) & 0xffu32) as u8);
    out.push((v & 0xffu32) as u8);
    assert(final(out)@ =~= old(out)@ + be32(v));
}

fn push_pose(out: &mut Vec<u8>, id: u16, p: Position, rotation: u32)
    ensures
        final(out)@ == old(out)@ + pose_bytes(id, p, rotation),
{
    push_u16(out, id);
    push_u32(out, p.x);
    push_u32(out, p.y);
    push_u32(out, rotation);
    assert(final(out)@ =~= old(out)@ + pose_bytes(id, p, rotation));
}

/// Encodes a message as one frame.
pub fn encode(m: &GameServerMessage) -> (r: Vec<u8>)
    ensures
        r@ == encoded(m@),
{
    let mut out: Vec<u8> = Vec::new();
    match m {
        GameServerMessage::Welcome(id) => {
            out.push(TAG_WELCOME);
            push_u16(&mut out, *id);
        },
        GameServerMessage::Goodbye(id) => {
            out.push(TAG_GOODBYE);
            push_u16(&mut out, *id);
        },
        GameServerMessage::ServerUpdate(states) => {
            out.push(TAG_SERVER_UPDATE);
            let mut i: usize = 0;
            while i < states.len()
                invariant
                    i <= states@.len(),
                    out@ == seq![TAG_SERVER_UPDATE] + records(states@.subrange(0, i as int)),
                decreases states@.len() - i,
            {
                let s = states[i];
                push_pose(&mut out, s.id, s.position, s.rotation);
                assert(states@.subrange(0, i + 1).drop_last() =~= states@.subrange(0, i as int));
                i = i + 1;
            }
            assert(states@.subrange(0, i as int) =~= states@);
        },
        GameServerMessage::ClientUpdate(s) => {
            out.push(TAG_CLIENT_UPDATE);
            push_pose(&mut out, s.id, s.position, s.rotation);
        },
    }
    assert(out@ =~= encoded(m@));
    out
}

fn read_u16(b: &[u8], at: usize) -> (r: u16)
    requires
        at + 2 <= b@.len(),
    ensures
        be16(r) == b@.subrange(at as int, at + 2),
{
    let (b0, b1) = (b[at], b[at + 1]);
    let r = ((b0 as u16) << 8u16) | (b1 as u16);
    assert((r >> 8u16) as u8 == b0 && (r & 0xffu16) as u8 == b1) by (bit_vector)
        requires
            r == ((b0 as u16) << 8u16) | (b1 as u16),
    ;
    assert(be16(r) =~= b@.subrange(at as int, at + 2));
    r
}

fn read_u32(b: &[u8], at: usize) -> (r: u32)
    requires
        at + 4 <= b@.len(),
    ensures
        be32(r) == b@.subrange(at as int, at + 4),
{
    let (b0, b1, b2, b3) = (b[at], b[at + 1], b[at + 2], b[at + 3]);
    let r = ((b0 as u32) << 24u32) | ((b1 as u32) << 16u32) | ((b2 as u32) << 8u32) | (b3 as u32);
    assert((r >> 24u32) as u8 == b0 && ((r >> 16u32) & 0xffu32) as u8 == b1 && ((r >> 8u32)
        & 0xffu32) as u8 == b2 && (r & 0xffu32) as u8 == b3) by (bit_vector)
        requires
            r == ((b0 as u32) << 24u32) | ((b1 as u32) << 16u32) | ((b2 as u32) << 8u32) | (
            b3 as u32),
    ;
    assert(be32(r) =~= b@.subrange(at as int, at + 4));
    r
}

fn read_pose(b: &[u8], at: usize) -> (r: (u16, Position, u32))
    requires
        at + 14 <= b@.len(),
    ensures
        pose_bytes(r.0, r.1, r.2) == b@.subrange(at as int, at + 14),
{
    let _len = b.len();
    let id = read_u16(b, at);
    let x = read_u32(b, at + 2);
    let y = read_u32(b, at + 6);
    let rotation = read_u32(b, at + 10);
    let p = Position { x, y };
    assert(pose_bytes(id, p, rotation) =~= b@.subrange(at as int, at + 14));
    (id, p, rotation)
}

/// Decodes one frame. A frame that encodes no message gives an error, never a
/// panic.
pub fn decode(b: &[u8]) -> (r: Result<GameServerMessage, DecodeError>)
    ensures
        match r {
            Ok(m) => decoded(b@) == Some(m@),
            Err(e) => decoded(b@) is None && e == decode_error(b@),
        },
{
    let n = b.len();
    if n == 0 {
        proof { lemma_no_message(b@) }
        return Err(DecodeError::Empty);
    }
    let tag = b[0];
    if tag == TAG_WELCOME || tag == TAG_GOODBYE {
        if n != 3 {
            proof { lemma_no_message(b@) }
            return Err(DecodeError::BadLength);
        }
        let id = read_u16(b, 1);
        let m = if tag == TAG_WELCOME {
            GameServerMessage::Welcome(id)
        } else {
            GameServerMessage::Goodbye(id)
        };
        proof {
            assert(encoded(m@) =~= b@);
            lemma_decoded_of(m@, b@);
        }
        Ok(m)
    } else if tag == TAG_SERVER_UPDATE {
        if (n - 1) % RECORD_LEN != 0 {
            proof { lemma_no_message(b@) }
            return Err(DecodeError::BadLength);
        }
        let count = (n - 1) / RECORD_LEN;
        let mut states: Vec<RemoteState> = Vec::new();
        let mut i: usize = 0;
        while i < count
            invariant
                n == b@.len(),
                count * 14 + 1 == n,
                i <= count,
                records(states@) == b@.subrange(1, 1 + 14 * i),
            decreases count - i,
        {
            let at = 1 + RECORD_LEN * i;
            let (id, position, rotation) = read_pose(b, at);
            let s = RemoteState { id, position, rotation };
            let ghost prev = states@;
            states.push(s);
            assert(states@.drop_last() =~= prev);
            assert(b@.subrange(1, 1 + 14 * (i + 1)) =~= b@.subrange(1, 1 + 14 * i)
                + b@.subrange(at as int, at + 14));
            i = i + 1;
        }
        let m = GameServerMessage::ServerUpdate(states);
        proof {
            assert(encoded(m@) =~= b@);
            lemma_decoded_of(m@, b@);
        }
        Ok(m)
    } else if tag == TAG_CLIENT_UPDATE {
        if n != 1 + RECORD_LEN {
            proof { lemma_no_message(b@) }
            return Err(DecodeError::BadLength);
        }
        let (id, position, rotation) = read_pose(b, 1);
        let m = GameServerMessage::ClientUpdate(State { id, position, rotation });
        proof {
            assert(encoded(m@) =~= b@);
            lemma_decoded_of(m@, b@);
        }
        Ok(m)
    } else {
        proof { lemma_no_message(b@) }
        Err(DecodeError::UnknownTag(tag))
    }
}

/// A frame whose tag or length fits no message kind encodes no message.
proof fn lemma_no_message(b: Seq<u8>)
    requires
        b.len() == 0 || b[0] > TAG_CLIENT_UPDATE || ((b[0] == TAG_WELCOME || b[0] == TAG_GOODBYE)
            && b.len() != 3) || (b[0] == TAG_SERVER_UPDATE && (b.len() - 1) % 14 != 0) || (b[0]
            == TAG_CLIENT_UPDATE && b.len() != 15),
    ensures
        decoded(b) is None,
{
    assert forall|m: MessageModel| encoded(m) != b by {
        lemma_encoded_shape(m);
    }
}

} // verus!
