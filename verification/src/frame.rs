//! Wire framing for the tunnel.
//!
//! A packet travels on the TCP control stream as a frame: a 2-byte big-endian
//! signed length followed by exactly that many payload bytes. A batch is the
//! concatenation of the frames of its packets, written verbatim as one slot's
//! content. A slot-index notification is a 2-byte big-endian unsigned value.

use vstd::prelude::*;

verus! {

/// Largest packet the virtual interface hands out or accepts.
pub const MTU: usize = 1500;

/// The two big-endian bytes of a value below 2^16.
pub open spec fn be16_of(n: nat) -> Seq<u8> {
    seq![(n / 256) as u8, (n % 256) as u8]
}

/// One frame: 2-byte big-endian length, then the payload.
pub open spec fn frame_of(p: Seq<u8>) -> Seq<u8> {
    be16_of(p.len()) + p
}

/// A batch: the frames of the packets, concatenated in order.
pub open spec fn batch_of(ps: Seq<Seq<u8>>) -> Seq<u8>
    decreases ps.len(),
{
    if ps.len() == 0 {
        Seq::empty()
    } else {
        frame_of(ps[0]) + batch_of(ps.drop_first())
    }
}

/// Meaning of a byte stream made of frames: the packet payloads in order,
/// or nothing if the stream is truncated or a length field is negative
/// (its first byte has the sign bit set), which is a protocol violation.
pub open spec fn decode_frames(b: Seq<u8>) -> Option<Seq<Seq<u8>>>
    decreases b.len(),
{
    if b.len() == 0 {
        Some(Seq::empty())
    } else if b.len() < 2 {
        None
    } else if b[0] >= 128 {
        None
    } else {
        let n = (b[0] as int) * 256 + (b[1] as int);
        if b.len() < 2 + n {
            None
        } else {
            match decode_frames(b.skip(2 + n)) {
                Some(rest) => Some(seq![b.subrange(2, 2 + n)] + rest),
                None => None,
            }
        }
    }
}

/// Every packet in the sequence fits the interface MTU.
pub open spec fn packets_within_mtu(ps: Seq<Seq<u8>>) -> bool {
    forall|j: int| 0 <= j < ps.len() ==> #[trigger] ps[j].len() <= MTU
}

/// Appending one packet to a batch appends its frame to the serialized form.
pub proof fn lemma_batch_of_push(ps: Seq<Seq<u8>>, p: Seq<u8>)
    ensures
        batch_of(ps.push(p)) == batch_of(ps) + frame_of(p),
    decreases ps.len(),
{
    assert(ps.push(p)[0] == if ps.len() == 0 { p } else { ps[0] });
    if ps.len() == 0 {
        assert(batch_of(ps) == Seq::<u8>::empty());
        assert(ps.push(p).drop_first() =~= Seq::<Seq<u8>>::empty());
        assert(batch_of(Seq::<Seq<u8>>::empty()) == Seq::<u8>::empty());
        assert(batch_of(ps.push(p)) == frame_of(p) + Seq::<u8>::empty());
        assert(frame_of(p) + Seq::<u8>::empty() =~= frame_of(p));
        assert(batch_of(ps) + frame_of(p) =~= frame_of(p));
    } else {
        assert(ps.push(p).drop_first() =~= ps.drop_first().push(p));
        lemma_batch_of_push(ps.drop_first(), p);
        assert(batch_of(ps.push(p)) == frame_of(ps[0]) + (batch_of(ps.drop_first()) + frame_of(p)));
        assert(frame_of(ps[0]) + (batch_of(ps.drop_first()) + frame_of(p)) =~= (frame_of(
            ps[0],
        ) + batch_of(ps.drop_first())) + frame_of(p));
        assert(batch_of(ps) == frame_of(ps[0]) + batch_of(ps.drop_first()));
    }
}

/// Append the bytes of `src` to `dst`.
pub fn append_bytes(dst: &mut Vec<u8>, src: &Vec<u8>)
    ensures
        final(dst)@ == old(dst)@ + src@,
{
    let mut i: usize = 0;
    while i < src.len()
        invariant
            i <= src@.len(),
            dst@ == old(dst)@ + src@.subrange(0, i as int),
        decreases src@.len() - i,
    {
        dst.push(src[i]);
        assert(src@.subrange(0, i + 1) == src@.subrange(0, i as int).push(src@[i as int]));
        i = i + 1;
    }
    assert(src@.subrange(0, src@.len() as int) == src@);
}

/// Serialize a batch: length-prefix each packet and concatenate, in order.
pub fn serialize_batch(packets: &Vec<Vec<u8>>) -> (r: Vec<u8>)
    requires
        packets_within_mtu(packets.deep_view()),
    ensures
        r@ == batch_of(packets.deep_view()),
{
    let mut r: Vec<u8> = Vec::new();
    let mut i: usize = 0;
    while i < packets.len()
        invariant
            i <= packets@.len(),
            packets_within_mtu(packets.deep_view()),
            r@ == batch_of(packets.deep_view().subrange(0, i as int)),
        decreases packets@.len() - i,
    {
        proof {
            let dv = packets.deep_view();
            assert(dv[i as int] == packets@[i as int]@);
            assert(dv[i as int].len() <= MTU);
        }
        let f = encode_frame(&packets[i]);
        append_bytes(&mut r, &f);
        proof {
            let dv = packets.deep_view();
            lemma_batch_of_push(dv.subrange(0, i as int), dv[i as int]);
            assert(dv.subrange(0, i + 1) == dv.subrange(0, i as int).push(dv[i as int]));
        }
        i = i + 1;
    }
    proof {
        let dv = packets.deep_view();
        assert(dv.subrange(0, dv.len() as int) == dv);
    }
    r
}

/// Decoding a stream that starts with the frame of `p` yields `p` and then
/// whatever the rest of the stream yields.
pub proof fn lemma_decode_frame_prepend(p: Seq<u8>, t: Seq<u8>)
    requires
        p.len() <= MTU,
    ensures
        decode_frames(frame_of(p) + t) == match decode_frames(t) {
            Some(rest) => Some(seq![p] + rest),
            None => None::<Seq<Seq<u8>>>,
        },
{
    let b = frame_of(p) + t;
    let len = p.len() as int;
    assert(b.len() == 2 + p.len() + t.len());
    assert(b[0] == (p.len() / 256) as u8);
    assert(b[1] == (p.len() % 256) as u8);
    assert(p.len() / 256 < 6);
    assert(b[0] < 128);
    assert((b[0] as int) * 256 + (b[1] as int) == len);
    assert(b.subrange(2, 2 + len) =~= p);
    assert(b.skip(2 + len) =~= t);
}

/// Decoding a stream that starts with a serialized batch yields the batch's
/// packets and then whatever the rest of the stream yields.
pub proof fn lemma_decode_batch_prepend(ps: Seq<Seq<u8>>, t: Seq<u8>)
    requires
        packets_within_mtu(ps),
    ensures
        decode_frames(batch_of(ps) + t) == match decode_frames(t) {
            Some(rest) => Some(ps + rest),
            None => None::<Seq<Seq<u8>>>,
        },
    decreases ps.len(),
{
    if ps.len() == 0 {
        assert(batch_of(ps) + t =~= t);
        if decode_frames(t) is Some {
            assert(ps + decode_frames(t)->Some_0 =~= decode_frames(t)->Some_0);
        }
    } else {
        let rest_ps = ps.drop_first();
        lemma_decode_batch_prepend(rest_ps, t);
        lemma_decode_frame_prepend(ps[0], batch_of(rest_ps) + t);
        assert(batch_of(ps) + t =~= frame_of(ps[0]) + (batch_of(rest_ps) + t));
        match decode_frames(t) {
            Some(rest) => {
                assert(seq![ps[0]] + (rest_ps + rest) =~= ps + rest);
            },
            None => {},
        }
    }
}

/// Round trip for a whole batch: decoding a serialized batch yields exactly
/// its packets, in order.
pub proof fn lemma_batch_round_trip(ps: Seq<Seq<u8>>)
    requires
        packets_within_mtu(ps),
    ensures
        decode_frames(batch_of(ps)) == Some(ps),
{
    lemma_decode_batch_prepend(ps, Seq::empty());
    assert(batch_of(ps) + Seq::<u8>::empty() =~= batch_of(ps));
    assert(decode_frames(Seq::<u8>::empty()) == Some(Seq::<Seq<u8>>::empty()));
    assert(ps + Seq::<Seq<u8>>::empty() =~= ps);
}

/// Round trip for one packet: encoding it as a frame and decoding the
/// resulting byte stream yields the original bytes unchanged, for any size
/// from zero up to the interface MTU.
pub proof fn lemma_frame_round_trip(p: Seq<u8>)
    requires
        p.len() <= MTU,
    ensures
        decode_frames(frame_of(p)) == Some(seq![p]),
{
    lemma_batch_round_trip(seq![p]);
    assert(seq![p][0] == p);
    assert(seq![p].drop_first() =~= Seq::<Seq<u8>>::empty());
    assert(batch_of(Seq::<Seq<u8>>::empty()) == Seq::<u8>::empty());
    assert(batch_of(seq![p]) == frame_of(p) + Seq::<u8>::empty());
    assert(frame_of(p) + Seq::<u8>::empty() =~= frame_of(p));
}

/// Encode one packet as a frame.
pub fn encode_frame(packet: &Vec<u8>) -> (r: Vec<u8>)
    requires
        packet@.len() <= MTU,
    ensures
        r@ == frame_of(packet@),
        r@.len() == packet@.len() + 2,
{
    let len = packet.len();
    let mut r: Vec<u8> = Vec::new();
    r.push((len / 256) as u8);
    r.push((len % 256) as u8);
    let mut i: usize = 0;
    while i < packet.len()
        invariant
            i <= packet@.len(),
            packet@.len() <= MTU,
            r@ == be16_of(packet@.len()) + packet@.subrange(0, i as int),
        decreases packet@.len() - i,
    {
        r.push(packet[i]);
        assert(packet@.subrange(0, i + 1) == packet@.subrange(0, i as int).push(packet@[i as int]));
        i = i + 1;
    }
    assert(packet@.subrange(0, packet@.len() as int) == packet@);
    r
}

/// Decode a batch of frames back into packets. The whole buffer must be a
/// sequence of well-formed frames; a truncated or negative length field makes
/// the stream undecodable.
pub fn decode_batch(buf: &Vec<u8>) -> (r: Option<Vec<Vec<u8>>>)
    ensures
        match r {
            Some(ps) => decode_frames(buf@) == Some(ps.deep_view()),
            None => decode_frames(buf@) == None::<Seq<Seq<u8>>>,
        },
{
    let mut out: Vec<Vec<u8>> = Vec::new();
    let mut i: usize = 0;
    proof {
        assert(buf@.skip(0) =~= buf@);
        assert(out.deep_view() =~= Seq::<Seq<u8>>::empty());
        match decode_frames(buf@) {
            Some(rest) => {
                assert(out.deep_view() + rest =~= rest);
            },
            None => {},
        }
    }
    while i < buf.len()
        invariant
            i <= buf@.len(),
            decode_frames(buf@) == match decode_frames(buf@.skip(i as int)) {
                Some(rest) => Some(out.deep_view() + rest),
                None => None::<Seq<Seq<u8>>>,
            },
        decreases buf@.len() - i,
    {
        proof {
            let s = buf@.skip(i as int);
            assert(s.len() == buf@.len() - i);
            assert(s[0] == buf@[i as int]);
        }
        if buf.len() - i < 2 {
            return None;
        }
        let b0 = buf[i];
        let b1 = buf[i + 1];
        proof {
            let s = buf@.skip(i as int);
            assert(s[1] == buf@[i + 1]);
        }
        if b0 >= 128 {
            return None;
        }
        let n: usize = (b0 as usize) * 256 + (b1 as usize);
        if buf.len() - i - 2 < n {
            return None;
        }
        let start = i + 2;
        let end = start + n;
        let mut p: Vec<u8> = Vec::new();
        let mut k: usize = start;
        while k < end
            invariant
                start <= k <= end,
                end <= buf@.len(),
                start == i + 2,
                end == i + 2 + n,
                p@ == buf@.subrange(start as int, k as int),
            decreases end - k,
        {
            p.push(buf[k]);
            assert(buf@.subrange(start as int, k + 1) == buf@.subrange(start as int, k as int).push(
                buf@[k as int],
            ));
            k = k + 1;
        }
        proof {
            let s = buf@.skip(i as int);
            assert((s[0] as int) * 256 + (s[1] as int) == n);
            assert(s.subrange(2, 2 + n as int) =~= buf@.subrange(start as int, end as int));
            assert(s.skip(2 + n as int) =~= buf@.skip(end as int));
            let old_dv = out.deep_view();
            match decode_frames(buf@.skip(end as int)) {
                Some(rest) => {
                    assert(old_dv.push(p@) + rest =~= old_dv + (seq![p@] + rest));
                },
                None => {},
            }
        }
        let ghost old_dv = out.deep_view();
        let ghost pv = p@;
        out.push(p);
        proof {
            assert(out.deep_view() =~~= old_dv.push(pv));
        }
        i = end;
    }
    proof {
        assert(buf@.skip(buf@.len() as int) =~= Seq::<u8>::empty());
        assert(decode_frames(Seq::<u8>::empty()) == Some(Seq::<Seq<u8>>::empty()));
        assert(out.deep_view() + Seq::<Seq<u8>>::empty() =~= out.deep_view());
    }
    Some(out)
}

/// The four big-endian bytes of a value below 2^32.
pub open spec fn be32_of(n: nat) -> Seq<u8> {
    seq![
        (n / 0x1000000) as u8,
        ((n / 0x10000) % 256) as u8,
        ((n / 256) % 256) as u8,
        (n % 256) as u8,
    ]
}

/// The newline-joined slot identifier list sent once at connect.
pub open spec fn joined_ids(ids: Seq<Seq<u8>>) -> Seq<u8>
    decreases ids.len(),
{
    if ids.len() == 0 {
        Seq::empty()
    } else if ids.len() == 1 {
        ids[0]
    } else {
        ids[0] + seq![10u8] + joined_ids(ids.drop_first())
    }
}

/// The handshake pushed to a client before any tunnel traffic: a 4-byte
/// big-endian length, then the newline-joined identifier list.
pub open spec fn handshake_of(ids: Seq<Seq<u8>>) -> Seq<u8> {
    be32_of(joined_ids(ids).len()) + joined_ids(ids)
}

/// Joining one more identifier appends a separator (when the list was not
/// empty) and the identifier.
pub proof fn lemma_joined_ids_push(ids: Seq<Seq<u8>>, id: Seq<u8>)
    ensures
        joined_ids(ids.push(id)) == if ids.len() == 0 {
            id
        } else {
            joined_ids(ids) + seq![10u8] + id
        },
    decreases ids.len(),
{
    assert(ids.push(id)[0] == if ids.len() == 0 { id } else { ids[0] });
    if ids.len() == 0 {
        assert(joined_ids(ids.push(id)) == id);
    } else if ids.len() == 1 {
        assert(ids.push(id).drop_first() =~= Seq::<Seq<u8>>::empty().push(id));
        assert(joined_ids(ids.push(id).drop_first()) == id);
        assert(joined_ids(ids) == ids[0]);
    } else {
        assert(ids.push(id).drop_first() =~= ids.drop_first().push(id));
        lemma_joined_ids_push(ids.drop_first(), id);
        assert(joined_ids(ids.push(id)) == ids[0] + seq![10u8] + (joined_ids(ids.drop_first())
            + seq![10u8] + id));
        assert(ids[0] + seq![10u8] + (joined_ids(ids.drop_first()) + seq![10u8] + id) =~= (ids[0]
            + seq![10u8] + joined_ids(ids.drop_first())) + seq![10u8] + id);
    }
}

/// Encode the connect handshake for a slot identifier list.
pub fn encode_slot_list(ids: &Vec<Vec<u8>>) -> (r: Vec<u8>)
    requires
        joined_ids(ids.deep_view()).len() <= 0x7FFFFFFF,
    ensures
        r@ == handshake_of(ids.deep_view()),
{
    let ghost dv = ids.deep_view();
    let mut joined: Vec<u8> = Vec::new();
    let mut i: usize = 0;
    while i < ids.len()
        invariant
            i <= ids@.len(),
            dv == ids.deep_view(),
            joined@ == joined_ids(dv.subrange(0, i as int)),
            joined_ids(dv).len() <= 0x7FFFFFFF,
        decreases ids@.len() - i,
    {
        if i > 0 {
            joined.push(10);
        }
        append_bytes(&mut joined, &ids[i]);
        proof {
            assert(dv[i as int] == ids@[i as int]@);
            lemma_joined_ids_push(dv.subrange(0, i as int), dv[i as int]);
            assert(dv.subrange(0, i + 1) == dv.subrange(0, i as int).push(dv[i as int]));
            if i > 0 {
                assert(joined_ids(dv.subrange(0, i as int)) + seq![10u8] + dv[i as int]
                    =~= joined_ids(dv.subrange(0, i as int)).push(10u8) + dv[i as int]);
            }
        }
        i = i + 1;
    }
    proof {
        assert(dv.subrange(0, dv.len() as int) == dv);
    }
    let n = joined.len();
    let mut r: Vec<u8> = Vec::new();
    r.push((n / 0x1000000) as u8);
    r.push(((n / 0x10000) % 256) as u8);
    r.push(((n / 256) % 256) as u8);
    r.push((n % 256) as u8);
    append_bytes(&mut r, &joined);
    proof {
        assert(r@ =~= handshake_of(dv));
    }
    r
}

/// Encode a slot-index notification: the index of the slot just updated, as
/// two big-endian bytes on the control stream.
pub fn encode_notification(index: usize) -> (r: Vec<u8>)
    requires
        index <= 0xFFFF,
    ensures
        r@ == be16_of(index as nat),
        r@.len() == 2,
{
    let mut r: Vec<u8> = Vec::new();
    r.push((index / 256) as u8);
    r.push((index % 256) as u8);
    proof {
        assert(r@ =~= be16_of(index as nat));
    }
    r
}

/// What an uplink frame header means for the session.
#[derive(PartialEq, Eq, Structural, Debug)]
pub enum UplinkHeader {
    /// A packet of this many payload bytes follows; read and inject it.
    Packet { len: u16 },
    /// A zero length signals end-of-stream: the peer is done, not an empty
    /// packet to forward.
    Shutdown,
    /// A negative length field; frame boundaries cannot be resynchronized, so
    /// the session must be dropped.
    Malformed,
}

/// Read an uplink frame header: a 2-byte big-endian signed length.
pub fn parse_frame_header(b0: u8, b1: u8) -> (h: UplinkHeader)
    ensures
        b0 >= 128 ==> h == UplinkHeader::Malformed,
        b0 < 128 && (b0 as int) * 256 + (b1 as int) == 0 ==> h == UplinkHeader::Shutdown,
        b0 < 128 && (b0 as int) * 256 + (b1 as int) > 0 ==> h == (UplinkHeader::Packet {
            len: ((b0 as int) * 256 + (b1 as int)) as u16,
        }),
{
    if b0 >= 128 {
        UplinkHeader::Malformed
    } else {
        let len: u16 = (b0 as u16) * 256 + (b1 as u16);
        if len == 0 {
            UplinkHeader::Shutdown
        } else {
            UplinkHeader::Packet { len }
        }
    }
}

} // verus!
