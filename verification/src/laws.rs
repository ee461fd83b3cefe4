//! Laws of the encoders: what a receiver of a payload can rely on.

use vstd::prelude::*;
use vstd::utf8::encode_utf8;

use crate::encoder::{
    be_bytes_no_sep, contains_binary, decode_v3_bin_frame, first_sep, frame_body_len,
    lemma_first_sep, v3_bin_frame, v3_bin_payload, v3_payload, v3_string_frame,
    v3_string_payload, v4_joined, v4_payload, v4_sep, PACKET_SEPARATOR_V3,
};
use crate::packet::{text_rep, PacketModel};
use crate::varlen::{be_bytes, dec_bytes};

verus! {

/// Splits a character sequence on the modern separator: the segments
/// between separators, in order, with no separator inside any segment.
pub open spec fn split_on_sep(s: Seq<char>) -> Seq<Seq<char>>
    decreases s.len(),
{
    if s.len() == 0 {
        seq![seq![]]
    } else if s[0] == v4_sep() {
        seq![seq![]] + split_on_sep(s.drop_first())
    } else {
        let rest = split_on_sep(s.drop_first());
        seq![seq![s[0]] + rest[0]] + rest.drop_first()
    }
}

/// A split has at least one segment.
pub proof fn lemma_split_len(s: Seq<char>)
    ensures
        split_on_sep(s).len() >= 1,
    decreases s.len(),
{
    if s.len() == 0 {
    } else {
        lemma_split_len(s.drop_first());
    }
}

/// A sequence without the separator splits into itself alone.
proof fn lemma_split_no_sep(s: Seq<char>)
    requires
        !s.contains(v4_sep()),
    ensures
        split_on_sep(s) == seq![s],
    decreases s.len(),
{
    if s.len() == 0 {
        assert(split_on_sep(s) =~~= seq![s]);
    } else {
        assert(s[0] != v4_sep());
        assert(!s.drop_first().contains(v4_sep())) by {
            if s.drop_first().contains(v4_sep()) {
                let i: int = choose|i: int|
                    0 <= i < s.drop_first().len() && s.drop_first()[i] == v4_sep();
                assert(s[i + 1] == v4_sep());
            }
        }
        lemma_split_no_sep(s.drop_first());
        lemma_split_len(s.drop_first());
        assert(split_on_sep(s) =~~= seq![s]);
    }
}

/// Splitting a separator-free prefix, one separator, and a remainder takes
/// off the prefix as the first segment and splits the remainder.
proof fn lemma_split_sep_concat(a: Seq<char>, b: Seq<char>)
    requires
        !a.contains(v4_sep()),
    ensures
        split_on_sep(a + seq![v4_sep()] + b) == seq![a] + split_on_sep(b),
    decreases a.len(),
{
    let s = a + seq![v4_sep()] + b;
    if a.len() == 0 {
        assert(s[0] == v4_sep());
        assert(s.drop_first() =~= b);
        assert(split_on_sep(s) =~~= seq![a] + split_on_sep(b));
    } else {
        assert(s[0] == a[0]);
        assert(a[0] != v4_sep());
        assert(!a.drop_first().contains(v4_sep())) by {
            if a.drop_first().contains(v4_sep()) {
                let i: int = choose|i: int|
                    0 <= i < a.drop_first().len() && a.drop_first()[i] == v4_sep();
                assert(a[i + 1] == v4_sep());
            }
        }
        assert(s.drop_first() =~= a.drop_first() + seq![v4_sep()] + b);
        lemma_split_sep_concat(a.drop_first(), b);
        lemma_split_len(b);
        assert(seq![s[0]] + (seq![a.drop_first()] + split_on_sep(b))[0] =~= a);
        assert(split_on_sep(s) =~~= seq![a] + split_on_sep(b));
    }
}

/// For every non-empty batch whose texts avoid the separator character, the
/// modern payload is valid UTF-8, decodes back to the joined texts, and the
/// joined texts split on the separator into exactly one segment per packet,
/// in order, each equal to that packet's textual representation.
pub proof fn lemma_v4_split_round_trip(ps: Seq<PacketModel>)
    requires
        ps.len() >= 1,
        forall|i: int| 0 <= i < ps.len() ==> !text_rep(#[trigger] ps[i]).contains(v4_sep()),
    ensures
        vstd::utf8::valid_utf8(v4_payload(ps)),
        vstd::utf8::decode_utf8(v4_payload(ps)) == v4_joined(ps),
        split_on_sep(v4_joined(ps)) == ps.map_values(|p: PacketModel| text_rep(p)),
    decreases ps.len(),
{
    broadcast use vstd::utf8::encode_utf8_valid_utf8;
    broadcast use vstd::utf8::encode_utf8_decode_utf8;

    if ps.len() == 1 {
        lemma_split_no_sep(text_rep(ps[0]));
        assert(split_on_sep(v4_joined(ps)) =~~= ps.map_values(
            |p: PacketModel| text_rep(p),
        ));
    } else {
        assert(forall|i: int|
            0 <= i < ps.drop_first().len() ==> !text_rep(
                #[trigger] ps.drop_first()[i],
            ).contains(v4_sep()));
        lemma_v4_split_round_trip(ps.drop_first());
        lemma_split_sep_concat(text_rep(ps[0]), v4_joined(ps.drop_first()));
        assert(split_on_sep(v4_joined(ps)) =~~= ps.map_values(
            |p: PacketModel| text_rep(p),
        ));
    }
}

/// A batch of exactly one packet — the blocking path's outcome — encodes
/// to just that packet's text, with no separator.
pub proof fn lemma_v4_single_packet(p: PacketModel)
    ensures
        v4_payload(seq![p]) == encode_utf8(text_rep(p)),
{
}

/// With at least one binary packet in the batch, the legacy dispatcher's
/// payload consists of the batch's binary frames only: one frame per
/// packet, in order, each non-empty and opened by type byte `0x00` or
/// `0x01`.
pub proof fn lemma_v3_payload_all_binary(ps: Seq<PacketModel>)
    requires
        contains_binary(ps),
    ensures
        v3_payload(ps) == v3_bin_payload(ps),
        forall|i: int|
            0 <= i < ps.len() ==> (#[trigger] v3_bin_frame(ps[i]))[0] == 0x00 || v3_bin_frame(
                ps[i],
            )[0] == 0x01,
        forall|i: int| 0 <= i < ps.len() ==> v3_bin_frame(ps[i]).len() > 0,
        v3_payload(ps).len() > 0,
{
    assert forall|i: int| 0 <= i < ps.len() implies ((#[trigger] v3_bin_frame(ps[i]))[0] == 0x00
        || v3_bin_frame(ps[i])[0] == 0x01) && v3_bin_frame(ps[i]).len() > 0 by {
        match ps[i] {
            PacketModel::Binary(_) => {
                assert(v3_bin_frame(ps[i])[0] == 0x01);
            },
            PacketModel::LegacyBinary(_) => {
                assert(v3_bin_frame(ps[i])[0] == 0x01);
            },
            _ => {
                assert(v3_bin_frame(ps[i])[0] == 0x00);
            },
        }
    }
    assert(v3_bin_frame(ps.last()).len() > 0);
}

/// With no binary packet in the batch, the legacy dispatcher's payload
/// consists of the batch's string frames only: one frame per packet, in
/// order, each non-empty and carrying the decimal Unicode scalar count of
/// the packet's text, the delimiter, then the text's UTF-8 bytes.
pub proof fn lemma_v3_payload_all_string(ps: Seq<PacketModel>)
    requires
        !contains_binary(ps),
    ensures
        v3_payload(ps) == v3_string_payload(ps),
        forall|i: int|
            0 <= i < ps.len() ==> #[trigger] v3_string_frame(ps[i]) == dec_bytes(
                text_rep(ps[i]).len(),
            ) + seq![PACKET_SEPARATOR_V3] + encode_utf8(text_rep(ps[i])),
        forall|i: int| 0 <= i < ps.len() ==> v3_string_frame(ps[i]).len() > 0,
        ps.len() > 0 ==> v3_payload(ps).len() > 0,
{
    assert forall|i: int| 0 <= i < ps.len() implies v3_string_frame(ps[i]).len() > 0 by {
        crate::varlen::lemma_dec_bytes_digits(text_rep(ps[i]).len());
    }
    if ps.len() > 0 {
        assert(v3_string_frame(ps.last()).len() > 0);
    }
}

/// Round trip of a legacy binary frame: as long as no byte of the length
/// field is `0xff`, decoding the frame recovers what was encoded — the raw
/// binary payload of a `0x01` frame, the text's UTF-8 bytes of a `0x00`
/// frame — unchanged.
pub proof fn lemma_v3_bin_frame_round_trip(p: PacketModel)
    requires
        be_bytes_no_sep(p),
    ensures
        ({
            let decoded = decode_v3_bin_frame(v3_bin_frame(p));
            match p {
                PacketModel::Binary(b) => decoded == Some((true, b)),
                PacketModel::LegacyBinary(b) => decoded == Some((true, b)),
                _ => decoded == Some((false, encode_utf8(text_rep(p)))),
            }
        }),
{
    let f = v3_bin_frame(p);
    let l = be_bytes(frame_body_len(p));
    let k: int = 1 + l.len() as int;
    match p {
        PacketModel::Binary(b) => {
            assert(f =~= seq![0x01u8] + l + seq![0xffu8, 0x04u8] + b);
            lemma_sep_position(f, l, k);
            assert(f.subrange(k + 1, f.len() as int) =~= seq![0x04u8] + b);
            assert((seq![0x04u8] + b).drop_first() =~= b);
        },
        PacketModel::LegacyBinary(b) => {
            assert(f =~= seq![0x01u8] + l + seq![0xffu8, 0x04u8] + b);
            lemma_sep_position(f, l, k);
            assert(f.subrange(k + 1, f.len() as int) =~= seq![0x04u8] + b);
            assert((seq![0x04u8] + b).drop_first() =~= b);
        },
        _ => {
            let u = encode_utf8(text_rep(p));
            assert(f =~= seq![0x00u8] + l + seq![0xffu8] + u);
            lemma_sep_position(f, l, k);
            assert(f.subrange(k + 1, f.len() as int) =~= u);
        },
    }
}

/// In a frame made of a non-`0xff` type byte, separator-free length bytes,
/// and the separator, the first `0xff` stands right behind the length.
proof fn lemma_sep_position(f: Seq<u8>, l: Seq<u8>, k: int)
    requires
        k == 1 + l.len(),
        k < f.len(),
        f[0] == 0x00 || f[0] == 0x01,
        forall|j: int| 0 <= j < l.len() ==> f[j + 1] == l[j],
        f[k] == 0xff,
        !l.contains(0xff),
    ensures
        first_sep(f) == k,
{
    assert forall|j: int| 0 <= j < k implies f[j] != 0xff by {
        if j > 0 {
            assert(f[j] == l[j - 1]);
            if l[j - 1] == 0xff {
                assert(l.contains(0xff));
            }
        }
    }
    lemma_first_sep(f, k);
}

} // verus!
