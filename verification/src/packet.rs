//! The protocol packet, its mathematical model, and its textual
//! representation.
//!
//! Every packet kind can be rendered as UTF-8 text: textual payloads stand
//! for themselves, control packets render as a single tag character, and
//! binary payloads render under an explicit text convention, a `b` tag
//! followed by two lowercase hexadecimal digits per byte.

use vstd::prelude::*;

verus! {

/// An error of an encode call.
#[derive(Clone, Copy, Debug, PartialEq, Eq, Structural)]
pub enum Error {
    /// The queue closed while a blocking wait for a packet was pending.
    Aborted,
    /// A packet could not be rendered to text.
    ConversionError,
}

/// One protocol message of the transport.
#[derive(Debug)]
pub enum Packet {
    /// Session handshake, carrying its textual payload.
    Open(String),
    /// Session close notice.
    Close,
    /// Heartbeat probe.
    Ping,
    /// Heartbeat answer.
    Pong,
    /// A textual message.
    Text(String),
    /// A binary message.
    Binary(Vec<u8>),
    /// A binary message tagged for the legacy protocol's binary framing.
    LegacyBinary(Vec<u8>),
    /// Transport upgrade notice.
    Upgrade,
    /// Filler packet.
    Noop,
}

/// The model of a packet: the same alternatives over `Seq`.
pub enum PacketModel {
    Open(Seq<char>),
    Close,
    Ping,
    Pong,
    Text(Seq<char>),
    Binary(Seq<u8>),
    LegacyBinary(Seq<u8>),
    Upgrade,
    Noop,
}

impl View for Packet {
    type V = PacketModel;

    open spec fn view(&self) -> PacketModel {
        match self {
            Packet::Open(s) => PacketModel::Open(s@),
            Packet::Close => PacketModel::Close,
            Packet::Ping => PacketModel::Ping,
            Packet::Pong => PacketModel::Pong,
            Packet::Text(s) => PacketModel::Text(s@),
            Packet::Binary(b) => PacketModel::Binary(b@),
            Packet::LegacyBinary(b) => PacketModel::LegacyBinary(b@),
            Packet::Upgrade => PacketModel::Upgrade,
            Packet::Noop => PacketModel::Noop,
        }
    }
}

impl DeepView for Packet {
    type V = PacketModel;

    open spec fn deep_view(&self) -> PacketModel {
        self.view()
    }
}

impl PacketModel {
    /// Whether the packet carries a binary payload.
    pub open spec fn is_binary(self) -> bool {
        self is Binary || self is LegacyBinary
    }
}

/// Lowercase hexadecimal digit character for a value below sixteen.
pub open spec fn hex_char(d: int) -> char
    recommends
        0 <= d < 16,
{
    if d == 0 {
        '0'
    } else if d == 1 {
        '1'
    } else if d == 2 {
        '2'
    } else if d == 3 {
        '3'
    } else if d == 4 {
        '4'
    } else if d == 5 {
        '5'
    } else if d == 6 {
        '6'
    } else if d == 7 {
        '7'
    } else if d == 8 {
        '8'
    } else if d == 9 {
        '9'
    } else if d == 10 {
        'a'
    } else if d == 11 {
        'b'
    } else if d == 12 {
        'c'
    } else if d == 13 {
        'd'
    } else if d == 14 {
        'e'
    } else {
        'f'
    }
}

/// Two lowercase hexadecimal digit characters per byte, in order.
pub open spec fn hex_chars(b: Seq<u8>) -> Seq<char>
    decreases b.len(),
{
    if b.len() == 0 {
        seq![]
    } else {
        hex_chars(b.drop_last()) + seq![
            hex_char(b.last() as int / 16),
            hex_char(b.last() as int % 16),
        ]
    }
}

/// The textual representation of a packet: textual payloads stand for
/// themselves, control packets are a single tag character, binary payloads
/// are a `b` tag followed by their bytes in lowercase hexadecimal.
pub open spec fn text_rep(p: PacketModel) -> Seq<char> {
    match p {
        PacketModel::Open(s) => seq!['0'] + s,
        PacketModel::Close => seq!['1'],
        PacketModel::Ping => seq!['2'],
        PacketModel::Pong => seq!['3'],
        PacketModel::Text(s) => s,
        PacketModel::Binary(b) => seq!['b'] + hex_chars(b),
        PacketModel::LegacyBinary(b) => seq!['b'] + hex_chars(b),
        PacketModel::Upgrade => seq!['5'],
        PacketModel::Noop => seq!['6'],
    }
}

/// Relies on `String::push`: appends the given character to the string.
#[verifier::external_body]
pub(crate) fn push_char(s: &mut String, c: char)
    ensures
        final(s)@ == old(s)@ + seq![c],
{
    s.push(c)
}

/// Lowercase hexadecimal digit for a value below sixteen.
fn hex_digit(d: u8) -> (c: char)
    requires
        d < 16,
    ensures
        c == hex_char(d as int),
{
    match d {
        0 => '0',
        1 => '1',
        2 => '2',
        3 => '3',
        4 => '4',
        5 => '5',
        6 => '6',
        7 => '7',
        8 => '8',
        9 => '9',
        10 => 'a',
        11 => 'b',
        12 => 'c',
        13 => 'd',
        14 => 'e',
        _ => 'f',
    }
}

/// Appends the lowercase hexadecimal rendering of `b` to `s`.
fn append_hex(s: &mut String, b: &Vec<u8>)
    ensures
        final(s)@ == old(s)@ + hex_chars(b@),
{
    let mut i: usize = 0;
    while i < b.len()
        invariant
            i <= b.len(),
            s@ == old(s)@ + hex_chars(b@.take(i as int)),
        decreases b.len() - i,
    {
        let byte: u8 = b[i];
        push_char(s, hex_digit(byte / 16));
        push_char(s, hex_digit(byte % 16));
        proof {
            assert(b@.take(i + 1).drop_last() =~= b@.take(i as int));
            assert(b@.take(i + 1).last() == b@[i as int]);
            assert(s@ =~= old(s)@ + hex_chars(b@.take(i + 1)));
        }
        i += 1;
    }
    proof {
        assert(b@.take(b@.len() as int) =~= b@);
    }
}

impl Packet {
    /// Whether this packet carries a binary payload.
    pub fn is_binary(&self) -> (r: bool)
        ensures
            r == self@.is_binary(),
    {
        match self {
            Packet::Binary(_) => true,
            Packet::LegacyBinary(_) => true,
            _ => false,
        }
    }

    /// Renders the packet as UTF-8 text. Under this packet model every
    /// payload is representable, so the conversion never fails.
    pub fn to_text(&self) -> (r: Result<String, Error>)
        ensures
            r matches Ok(t) && t@ == text_rep(self@),
    {
        proof {
            reveal_strlit("0");
            reveal_strlit("1");
            reveal_strlit("2");
            reveal_strlit("3");
            reveal_strlit("5");
            reveal_strlit("6");
            reveal_strlit("b");
        }
        match self {
            Packet::Open(s) => {
                let mut t = <String as vstd::string::StringExecFns>::from_str("0");
                vstd::string::StringExecFns::append(&mut t, s.as_str());
                assert(t@ =~= text_rep(self@));
                Ok(t)
            },
            Packet::Close => {
                let t = <String as vstd::string::StringExecFns>::from_str("1");
                assert(t@ =~= text_rep(self@));
                Ok(t)
            },
            Packet::Ping => {
                let t = <String as vstd::string::StringExecFns>::from_str("2");
                assert(t@ =~= text_rep(self@));
                Ok(t)
            },
            Packet::Pong => {
                let t = <String as vstd::string::StringExecFns>::from_str("3");
                assert(t@ =~= text_rep(self@));
                Ok(t)
            },
            Packet::Text(s) => Ok(s.clone()),
            Packet::Binary(b) => {
                let mut t = <String as vstd::string::StringExecFns>::from_str("b");
                append_hex(&mut t, b);
                assert(t@ =~= text_rep(self@));
                Ok(t)
            },
            Packet::LegacyBinary(b) => {
                let mut t = <String as vstd::string::StringExecFns>::from_str("b");
                append_hex(&mut t, b);
                assert(t@ =~= text_rep(self@));
                Ok(t)
            },
            Packet::Upgrade => {
                let t = <String as vstd::string::StringExecFns>::from_str("5");
                assert(t@ =~= text_rep(self@));
                Ok(t)
            },
            Packet::Noop => {
                let t = <String as vstd::string::StringExecFns>::from_str("6");
                assert(t@ =~= text_rep(self@));
                Ok(t)
            },
        }
    }
}

} // verus!
