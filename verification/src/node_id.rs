//! Node identities: twenty bytes, written as `0x` and forty hexadecimal
//! digits.

use vstd::prelude::*;
use vstd::utf8::{encode_utf8, is_ascii_chars_encode_utf8};

verus! {

/// Number of bytes in a node identity.
pub const NODE_ID_LENGTH: usize = 20;

/// The identity of a node of the market.
#[derive(Clone, Copy, Debug, PartialEq, Eq)]
pub struct NodeId {
    pub bytes: [u8; 20],
}

impl View for NodeId {
    type V = Seq<u8>;

    open spec fn view(&self) -> Seq<u8> {
        self.bytes@
    }
}

/// Value of one hexadecimal digit, in either case.
pub open spec fn hex_value(b: u8) -> Option<int> {
    if 0x30 <= b <= 0x39 {
        Some(b - 0x30)
    } else if 0x61 <= b <= 0x66 {
        Some(b - 0x61 + 10)
    } else if 0x41 <= b <= 0x46 {
        Some(b - 0x41 + 10)
    } else {
        None
    }
}

/// The bytes are `0x` followed by forty hexadecimal digits.
pub open spec fn is_node_id_text(t: Seq<u8>) -> bool {
    &&& t.len() == 42
    &&& t[0] == 0x30
    &&& t[1] == 0x78
    &&& forall|i: int| 2 <= i < 42 ==> hex_value(#[trigger] t[i]) is Some
}

/// The identity that a well-formed text names: each pair of digits gives
/// one byte, the high digit first.
pub open spec fn node_id_of_text(t: Seq<u8>) -> Seq<u8> {
    Seq::new(
        20,
        |i: int| (hex_value(t[2 * i + 2]).unwrap() * 16 + hex_value(t[2 * i + 3]).unwrap()) as u8,
    )
}

/// What parsing a text as a node identity gives.
pub open spec fn parsed_node_id(t: Seq<char>) -> Option<Seq<u8>> {
    if is_node_id_text(encode_utf8(t)) {
        Some(node_id_of_text(encode_utf8(t)))
    } else {
        None
    }
}

/// The lower-case hexadecimal digit for a value below sixteen.
pub open spec fn lower_hex(v: int) -> char {
    if v < 10 {
        (0x30 + v) as u8 as char
    } else {
        (0x61 + v - 10) as u8 as char
    }
}

/// The text of an identity: `0x` and two lower-case digits for each byte.
pub open spec fn node_id_text(id: Seq<u8>) -> Seq<char> {
    Seq::new(
        42,
        |i: int|
            if i == 0 {
                '0'
            } else if i == 1 {
                'x'
            } else if i % 2 == 0 {
                lower_hex(id[(i - 2) / 2] as int / 16)
            } else {
                lower_hex(id[(i - 2) / 2] as int % 16)
            },
    )
}

/// The text of an identity is read back as that identity.
pub proof fn lemma_text_round_trip(id: Seq<u8>)
    requires
        id.len() == 20,
    ensures
        parsed_node_id(node_id_text(id)) == Some(id),
{
    let text = node_id_text(id);
    assert forall|i: int| 0 <= i < text.len() implies '\0' <= #[trigger] text[i] <= '\u{7f}' by {
        if i >= 2 {
            let v = if i % 2 == 0 { id[(i - 2) / 2] as int / 16 } else { id[(i - 2) / 2] as int % 16 };
            assert(0 <= v < 16);
            assert(text[i] == lower_hex(v));
        }
    }
    is_ascii_chars_encode_utf8(text);
    let bytes = encode_utf8(text);
    assert(bytes.len() == 42);
    assert(bytes[0] == text[0] as u8);
    assert(bytes[1] == text[1] as u8);
    assert forall|i: int| 2 <= i < 42 implies hex_value(#[trigger] bytes[i]) == Some(
        if i % 2 == 0 {
            id[(i - 2) / 2] as int / 16
        } else {
            id[(i - 2) / 2] as int % 16
        },
    ) by {
        let v = if i % 2 == 0 { id[(i - 2) / 2] as int / 16 } else { id[(i - 2) / 2] as int % 16 };
        assert(0 <= v < 16);
        assert(text[i] == lower_hex(v));
        assert(bytes[i] == text[i] as u8);
    }
    assert(is_node_id_text(bytes));
    assert forall|k: int| 0 <= k < 20 implies node_id_of_text(bytes)[k] == id[k] by {
        assert(hex_value(bytes[2 * k + 2]) == Some(id[k] as int / 16));
        assert(hex_value(bytes[2 * k + 3]) == Some(id[k] as int % 16));
    }
    assert(node_id_of_text(bytes) =~= id);
}

impl NodeId {
    /// Whether two identities hold the same bytes.
    pub fn same_as(&self, other: &NodeId) -> (r: bool)
        ensures
            r == (self@ == other@),
    {
        let mut i: usize = 0;
        while i < 20
            invariant
                i <= 20,
                forall|j: int| 0 <= j < i ==> self.bytes@[j] == other.bytes@[j],
            decreases 20 - i,
        {
            if self.bytes[i] != other.bytes[i] {
                return false;
            }
            i += 1;
        }
        assert(self.bytes@ =~= other.bytes@);
        true
    }
}

/// Calls `ya_client_model::NodeId::from_str`, which accepts exactly the
/// texts of forty-two bytes that begin with `0x` and go on with forty
/// hexadecimal digits of either case, and reads each pair of digits as one
/// byte.
#[verifier::external_body]
pub(crate) fn parse_node_id(s: &str) -> (r: Option<NodeId>)
    ensures
        match parsed_node_id(s@) {
            Some(bytes) => r is Some && r.unwrap()@ == bytes,
            None => r is None,
        },
{
    let parsed: Result<ya_client_model::NodeId, _> = std::str::FromStr::from_str(s);
    match parsed {
        Ok(id) => Some(NodeId { bytes: id.into_array() }),
        Err(_) => None,
    }
}

/// Calls `to_string` on a `ya_client_model::NodeId`, which writes `0x` and
/// then each byte as two lower-case hexadecimal digits.
#[verifier::external_body]
pub(crate) fn node_id_string(id: &NodeId) -> (r: String)
    ensures
        r@ == node_id_text(id@),
{
    ya_client_model::NodeId::from(id.bytes).to_string()
}

} // verus!
