//! The payload encoders.
//!
//! A batch of packets drained from a connection's outgoing queue, in arrival
//! order, becomes one response body. The modern format joins the packets'
//! texts with a separator character; the legacy format emits one
//! length-prefixed frame per packet, and a dispatcher picks, per batch,
//! between binary frames (when any packet of the batch is binary) and string
//! frames (when none is).

use vstd::prelude::*;
use vstd::utf8::encode_utf8;

use crate::packet::{text_rep, Error, Packet, PacketModel};
use crate::varlen::{append_be_bytes, append_dec_bytes, be_bytes, dec_bytes};

verus! {

/// Separator byte between the packets of a modern text payload.
pub const PACKET_SEPARATOR_V4: u8 = 0x1e;

/// Delimiter byte between the decimal length and the text of a legacy
/// string frame.
pub const PACKET_SEPARATOR_V3: u8 = 0x3a;

/// The modern separator as a character.
pub open spec fn v4_sep() -> char {
    '\x1e'
}

/// Whether any packet of the batch carries a binary payload.
pub open spec fn contains_binary(ps: Seq<PacketModel>) -> bool {
    exists|i: int| 0 <= i < ps.len() && ps[i].is_binary()
}

/// One legacy binary-format frame: a type byte (`0x01` raw binary, `0x00`
/// textual), the minimal-width big-endian byte length of what follows the
/// separator, the `0xff` separator, then the payload; a raw binary payload
/// is preceded by the `0x04` message-type marker, which the length counts.
pub open spec fn v3_bin_frame(p: PacketModel) -> Seq<u8> {
    match p {
        PacketModel::Binary(b) => seq![0x01u8] + be_bytes(b.len() + 1) + seq![0xffu8, 0x04u8] + b,
        PacketModel::LegacyBinary(b) => seq![0x01u8] + be_bytes(b.len() + 1) + seq![
            0xffu8,
            0x04u8,
        ] + b,
        _ => seq![0x00u8] + be_bytes(encode_utf8(text_rep(p)).len()) + seq![0xffu8] + encode_utf8(
            text_rep(p),
        ),
    }
}

/// One legacy string-format frame: the Unicode scalar count of the packet's
/// text as decimal ASCII digits, the delimiter, then the text's UTF-8 bytes.
pub open spec fn v3_string_frame(p: PacketModel) -> Seq<u8> {
    dec_bytes(text_rep(p).len()) + seq![PACKET_SEPARATOR_V3] + encode_utf8(text_rep(p))
}

/// The legacy binary payload of a batch: its binary frames, in order.
pub open spec fn v3_bin_payload(ps: Seq<PacketModel>) -> Seq<u8>
    decreases ps.len(),
{
    if ps.len() == 0 {
        seq![]
    } else {
        v3_bin_payload(ps.drop_last()) + v3_bin_frame(ps.last())
    }
}

/// The legacy string payload of a batch: its string frames, in order.
pub open spec fn v3_string_payload(ps: Seq<PacketModel>) -> Seq<u8>
    decreases ps.len(),
{
    if ps.len() == 0 {
        seq![]
    } else {
        v3_string_payload(ps.drop_last()) + v3_string_frame(ps.last())
    }
}

/// The legacy payload of a batch: all binary frames if any packet of the
/// batch is binary, else all string frames — never a mixture.
pub open spec fn v3_payload(ps: Seq<PacketModel>) -> Seq<u8> {
    if contains_binary(ps) {
        v3_bin_payload(ps)
    } else {
        v3_string_payload(ps)
    }
}

/// The texts of a batch joined with the modern separator: no separator
/// before the first text nor after the last.
pub open spec fn v4_joined(ps: Seq<PacketModel>) -> Seq<char>
    decreases ps.len(),
{
    if ps.len() == 0 {
        seq![]
    } else if ps.len() == 1 {
        text_rep(ps[0])
    } else {
        text_rep(ps[0]) + seq![v4_sep()] + v4_joined(ps.drop_first())
    }
}

/// The modern payload of a batch: the UTF-8 bytes of its joined texts.
pub open spec fn v4_payload(ps: Seq<PacketModel>) -> Seq<u8> {
    encode_utf8(v4_joined(ps))
}

/// The modern separator character encodes as exactly the documented
/// separator byte.
pub proof fn lemma_v4_sep_byte()
    ensures
        encode_utf8(seq![v4_sep()]) == seq![PACKET_SEPARATOR_V4],
{
    let s = seq![v4_sep()];
    assert(vstd::utf8::is_ascii_chars(s));
    vstd::utf8::is_ascii_chars_encode_utf8(s);
    assert(encode_utf8(s) =~= seq![PACKET_SEPARATOR_V4]);
}

/// Joining one more packet appends one separator and its text.
pub proof fn lemma_v4_joined_push(ps: Seq<PacketModel>, p: PacketModel)
    requires
        ps.len() >= 1,
    ensures
        v4_joined(ps.push(p)) == v4_joined(ps) + seq![v4_sep()] + text_rep(p),
    decreases ps.len(),
{
    if ps.len() == 1 {
        assert(ps.push(p).drop_first() =~= seq![p]);
        assert(v4_joined(seq![p]) == text_rep(p));
        assert(v4_joined(ps.push(p)) =~= v4_joined(ps) + seq![v4_sep()] + text_rep(p));
    } else {
        lemma_v4_joined_push(ps.drop_first(), p);
        assert(ps.push(p).drop_first() =~= ps.drop_first().push(p));
        assert(v4_joined(ps.push(p)) =~= v4_joined(ps) + seq![v4_sep()] + text_rep(p));
    }
}

/// Relies on `bytes::BufMut::put_slice` for `Vec<u8>`: appends the slice's
/// bytes to the vector.
#[verifier::external_body]
fn put_slice(data: &mut Vec<u8>, src: &[u8])
    ensures
        final(data)@ == old(data)@ + src@,
{
    bytes::BufMut::put_slice(data, src)
}

/// Appends the legacy binary-format frame of `packet` to `data`.
fn append_bin_frame(packet: &Packet, data: &mut Vec<u8>) -> (r: Result<(), Error>)
    ensures
        r is Ok,
        final(data)@ == old(data)@ + v3_bin_frame(packet@),
{
    match packet {
        Packet::Binary(bin) | Packet::LegacyBinary(bin) => {
            data.push(0x1);
            let len: u128 = bin.len() as u128 + 1;
            let mut len_bytes: Vec<u8> = Vec::new();
            append_be_bytes(&mut len_bytes, len);
            put_slice(data, len_bytes.as_slice());
            data.push(0xff);
            data.push(0x04);
            data.extend_from_slice(bin.as_slice());
            assert(data@ =~= old(data)@ + v3_bin_frame(packet@));
            Ok(())
        },
        other => {
            let text = match other.to_text() {
                Ok(t) => t,
                Err(e) => { return Err(e) },
            };
            data.push(0x0);
            let text_bytes = vstd::string::StrSliceExecFns::as_bytes_vec(text.as_str());
            let mut len_bytes: Vec<u8> = Vec::new();
            append_be_bytes(&mut len_bytes, text_bytes.len() as u128);
            put_slice(data, len_bytes.as_slice());
            data.push(0xff);
            data.extend_from_slice(text_bytes.as_slice());
            assert(data@ =~= old(data)@ + v3_bin_frame(packet@));
            Ok(())
        },
    }
}

/// Appends the legacy string-format frame of `packet` to `data`.
fn append_string_frame(packet: &Packet, data: &mut Vec<u8>) -> (r: Result<(), Error>)
    ensures
        r is Ok,
        final(data)@ == old(data)@ + v3_string_frame(packet@),
{
    let text = match packet.to_text() {
        Ok(t) => t,
        Err(e) => { return Err(e) },
    };
    let count: usize = vstd::string::StrSliceExecFns::unicode_len(text.as_str());
    append_dec_bytes(data, count as u64);
    data.push(PACKET_SEPARATOR_V3);
    let text_bytes = vstd::string::StrSliceExecFns::as_bytes_vec(text.as_str());
    data.extend_from_slice(text_bytes.as_slice());
    assert(data@ =~= old(data)@ + v3_string_frame(packet@));
    Ok(())
}

/// Encodes one packet as a legacy binary-format frame, appended to `data`.
pub fn v3_bin_packet_encoder(packet: Packet, data: &mut Vec<u8>) -> (r: Result<(), Error>)
    ensures
        r is Ok,
        final(data)@ == old(data)@ + v3_bin_frame(packet@),
{
    append_bin_frame(&packet, data)
}

/// Encodes one packet as a legacy string-format frame, appended to `data`.
pub fn v3_string_packet_encoder(packet: Packet, data: &mut Vec<u8>) -> (r: Result<(), Error>)
    ensures
        r is Ok,
        final(data)@ == old(data)@ + v3_string_frame(packet@),
{
    append_string_frame(&packet, data)
}

/// Encodes a drained batch as one modern text payload: the packets' texts,
/// in arrival order, joined with the separator character.
pub fn v4_encoder(packets: Vec<Packet>) -> (r: Result<Vec<u8>, Error>)
    ensures
        r matches Ok(v) && v@ == v4_payload(packets.deep_view()),
{
    let ghost dv = packets.deep_view();
    let mut data = String::new();
    let mut i: usize = 0;
    while i < packets.len()
        invariant
            i <= packets.len(),
            dv == packets.deep_view(),
            dv.len() == packets@.len(),
            data@ == v4_joined(dv.take(i as int)),
        decreases packets.len() - i,
    {
        let text = match packets[i].to_text() {
            Ok(t) => t,
            Err(e) => { return Err(e) },
        };
        proof {
            assert(dv[i as int] == packets@[i as int]@);
        }
        if i > 0 {
            crate::packet::push_char(&mut data, '\x1e');
            vstd::string::StringExecFns::append(&mut data, text.as_str());
            proof {
                assert(dv.take(i + 1) =~= dv.take(i as int).push(dv[i as int]));
                lemma_v4_joined_push(dv.take(i as int), dv[i as int]);
                assert(data@ =~= v4_joined(dv.take(i + 1)));
            }
        } else {
            vstd::string::StringExecFns::append(&mut data, text.as_str());
            proof {
                assert(dv.take(1)[0] == dv[0]);
                assert(data@ =~= v4_joined(dv.take(i + 1)));
            }
        }
        i += 1;
    }
    proof {
        assert(dv.take(packets@.len() as int) =~= dv);
    }
    Ok(vstd::string::StrSliceExecFns::as_bytes_vec(data.as_str()))
}

/// Encodes a drained batch as one legacy payload, dispatching per batch:
/// if any packet of the batch is binary, every packet becomes a binary
/// frame; otherwise every packet becomes a string frame.
pub fn v3_binary_encoder(packets: Vec<Packet>) -> (r: Result<Vec<u8>, Error>)
    ensures
        r matches Ok(v) && v@ == v3_payload(packets.deep_view()),
{
    let ghost dv = packets.deep_view();
    let mut has_binary = false;
    let mut i: usize = 0;
    while i < packets.len()
        invariant
            i <= packets.len(),
            dv == packets.deep_view(),
            dv.len() == packets@.len(),
            has_binary == contains_binary(dv.take(i as int)),
        decreases packets.len() - i,
    {
        if packets[i].is_binary() {
            has_binary = true;
            proof {
                assert(dv.take(i + 1)[i as int] == dv[i as int]);
                assert(contains_binary(dv.take(i + 1)));
            }
        } else {
            proof {
                assert(dv.take(i + 1).drop_last() =~= dv.take(i as int));
                assert forall|j: int| 0 <= j < i + 1 && #[trigger] dv.take(i + 1)[j].is_binary()
                    implies contains_binary(dv.take(i as int)) by {
                    assert(j != i);
                    assert(dv.take(i as int)[j] == dv.take(i + 1)[j]);
                }
                assert(contains_binary(dv.take(i + 1)) == contains_binary(dv.take(i as int)));
            }
        }
        i += 1;
    }
    proof {
        assert(dv.take(packets@.len() as int) =~= dv);
    }
    let mut data: Vec<u8> = Vec::new();
    let mut j: usize = 0;
    if has_binary {
        while j < packets.len()
            invariant
                j <= packets.len(),
                dv == packets.deep_view(),
                dv.len() == packets@.len(),
                data@ == v3_bin_payload(dv.take(j as int)),
            decreases packets.len() - j,
        {
            let r = append_bin_frame(&packets[j], &mut data);
            if let Err(e) = r {
                return Err(e);
            }
            proof {
                assert(dv.take(j + 1).drop_last() =~= dv.take(j as int));
                assert(dv.take(j + 1).last() == dv[j as int]);
                assert(data@ =~= v3_bin_payload(dv.take(j + 1)));
            }
            j += 1;
        }
    } else {
        while j < packets.len()
            invariant
                j <= packets.len(),
                dv == packets.deep_view(),
                dv.len() == packets@.len(),
                data@ == v3_string_payload(dv.take(j as int)),
            decreases packets.len() - j,
        {
            let r = append_string_frame(&packets[j], &mut data);
            if let Err(e) = r {
                return Err(e);
            }
            proof {
                assert(dv.take(j + 1).drop_last() =~= dv.take(j as int));
                assert(dv.take(j + 1).last() == dv[j as int]);
                assert(data@ =~= v3_string_payload(dv.take(j + 1)));
            }
            j += 1;
        }
    }
    proof {
        assert(dv.take(packets@.len() as int) =~= dv);
    }
    Ok(data)
}

/// Encodes a drained batch as one legacy string payload: one string frame
/// per packet, in arrival order.
pub fn v3_string_encoder(packets: Vec<Packet>) -> (r: Result<Vec<u8>, Error>)
    ensures
        r matches Ok(v) && v@ == v3_string_payload(packets.deep_view()),
{
    let ghost dv = packets.deep_view();
    let mut data: Vec<u8> = Vec::new();
    let mut i: usize = 0;
    while i < packets.len()
        invariant
            i <= packets.len(),
            dv == packets.deep_view(),
            dv.len() == packets@.len(),
            data@ == v3_string_payload(dv.take(i as int)),
        decreases packets.len() - i,
    {
        let r = append_string_frame(&packets[i], &mut data);
        if let Err(e) = r {
            return Err(e);
        }
        proof {
            assert(dv.take(i + 1).drop_last() =~= dv.take(i as int));
            assert(dv.take(i + 1).last() == dv[i as int]);
            assert(data@ =~= v3_string_payload(dv.take(i + 1)));
        }
        i += 1;
    }
    proof {
        assert(dv.take(packets@.len() as int) =~= dv);
    }
    Ok(data)
}

/// The count that a legacy binary frame's length field states: the byte
/// length of what follows the separator — the raw binary payload plus its
/// message-type marker, or the text's UTF-8 bytes.
pub open spec fn frame_body_len(p: PacketModel) -> nat {
    match p {
        PacketModel::Binary(b) => b.len() + 1,
        PacketModel::LegacyBinary(b) => b.len() + 1,
        _ => encode_utf8(text_rep(p)).len(),
    }
}

/// No byte of the frame's length field equals the `0xff` separator, so a
/// decoder scanning for the separator finds the payload start.
pub open spec fn be_bytes_no_sep(p: PacketModel) -> bool {
    !be_bytes(frame_body_len(p)).contains(0xff)
}

/// Index of the first `0xff` byte of `f`, or `f.len()` if there is none.
pub open spec fn first_sep(f: Seq<u8>) -> int
    decreases f.len(),
{
    if f.len() == 0 {
        0
    } else if f[0] == 0xff {
        0
    } else {
        1 + first_sep(f.drop_first())
    }
}

/// The first `0xff` byte stands exactly where every earlier byte differs
/// from `0xff`.
pub proof fn lemma_first_sep(f: Seq<u8>, k: int)
    requires
        0 <= k <= f.len(),
        forall|j: int| 0 <= j < k ==> f[j] != 0xff,
        k < f.len() ==> f[k] == 0xff,
    ensures
        first_sep(f) == k,
    decreases k,
{
    if k == 0 {
    } else {
        assert(f[0] != 0xff);
        lemma_first_sep(f.drop_first(), k - 1);
    }
}

/// Decodes one legacy binary-format frame: reads the type byte, finds the
/// payload behind the first `0xff` separator, and strips the message-type
/// marker of a raw binary payload.
pub open spec fn decode_v3_bin_frame(f: Seq<u8>) -> Option<(bool, Seq<u8>)> {
    if f.len() == 0 {
        None
    } else if f[0] != 0x00 && f[0] != 0x01 {
        None
    } else {
        let k: int = first_sep(f);
        if k >= f.len() {
            None
        } else {
            let payload = f.subrange(k + 1, f.len() as int);
            if f[0] == 0x01 {
                if payload.len() >= 1 && payload[0] == 0x04 {
                    Some((true, payload.drop_first()))
                } else {
                    None
                }
            } else {
                Some((false, payload))
            }
        }
    }
}

/// Decodes one legacy binary-format frame, handing back whether the frame
/// carried raw binary payload, and that payload: the raw bytes behind the
/// message-type marker, or the text's UTF-8 bytes.
pub fn v3_bin_frame_decoder(frame: &Vec<u8>) -> (r: Option<(bool, Vec<u8>)>)
    ensures
        match r {
            Some(pr) => decode_v3_bin_frame(frame@) == Some((pr.0, pr.1@)),
            None => decode_v3_bin_frame(frame@) is None,
        },
{
    if frame.len() == 0 {
        return None;
    }
    let ty: u8 = frame[0];
    if ty != 0x00 && ty != 0x01 {
        return None;
    }
    let mut k: usize = 0;
    while k < frame.len() && frame[k] != 0xff
        invariant
            0 <= k <= frame@.len(),
            forall|j: int| 0 <= j < k ==> frame@[j] != 0xff,
        decreases frame@.len() - k,
    {
        k += 1;
    }
    proof {
        lemma_first_sep(frame@, k as int);
    }
    if k >= frame.len() {
        return None;
    }
    let payload = vstd::slice::slice_subrange(frame.as_slice(), k + 1, frame.len());
    if ty == 0x01 {
        if payload.len() >= 1 && payload[0] == 0x04 {
            let content = vstd::slice::slice_to_vec(
                vstd::slice::slice_subrange(payload, 1, payload.len()),
            );
            proof {
                assert(content@ =~= frame@.subrange(
                    k + 1,
                    frame@.len() as int,
                ).drop_first());
            }
            Some((true, content))
        } else {
            None
        }
    } else {
        let content = vstd::slice::slice_to_vec(payload);
        Some((false, content))
    }
}

/// Resolves the blocking wait of the drain-or-wait discipline: a packet if
/// one arrived, the `Aborted` error if the queue closed while waiting.
pub fn require_packet(popped: Option<Packet>) -> (r: Result<Packet, Error>)
    ensures
        popped matches Some(p) ==> r matches Ok(q) && q == p,
        popped is None ==> r == Err::<Packet, Error>(Error::Aborted),
{
    match popped {
        Some(p) => Ok(p),
        None => Err(Error::Aborted),
    }
}

} // verus!
