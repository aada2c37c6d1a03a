//! Length prefixes in the base-128 variable-length integer encoding.

use vstd::prelude::*;

verus! {

/// The bytes of `value` as a little-endian base-128 varint: seven bits per
/// byte, least significant group first, the high bit set on every byte but
/// the last.
pub open spec fn varint_bytes(value: nat) -> Seq<u8>
    decreases value,
{
    if value < 0x80 {
        seq![value as u8]
    } else {
        seq![((value % 0x80) + 0x80) as u8] + varint_bytes(value / 0x80)
    }
}

/// Reads one varint from the front of `bytes`: its value and the number of
/// bytes it takes, or nothing if the bytes end before the varint does.
pub open spec fn read_varint(bytes: Seq<u8>) -> Option<(nat, nat)>
    decreases bytes.len(),
{
    if bytes.len() == 0 {
        None
    } else if bytes[0] < 0x80 {
        Some((bytes[0] as nat, 1))
    } else {
        match read_varint(bytes.skip(1)) {
            Some((high, used)) => Some((((bytes[0] - 0x80) + 0x80 * high) as nat, used + 1)),
            None => None,
        }
    }
}

/// A varint is at least one byte long, and reading it back gives the value
/// that was written and the place where it ends, whatever follows it.
pub proof fn lemma_varint_round_trip(value: nat, rest: Seq<u8>)
    ensures
        varint_bytes(value).len() >= 1,
        read_varint(varint_bytes(value) + rest) == Some((value, varint_bytes(value).len())),
    decreases value,
{
    let written = varint_bytes(value) + rest;
    if value < 0x80 {
        assert(written[0] == value as u8);
    } else {
        let low = ((value % 0x80) + 0x80) as u8;
        lemma_varint_round_trip(value / 0x80, rest);
        assert(written[0] == low);
        assert(written.skip(1) =~= varint_bytes(value / 0x80) + rest);
        assert((low - 0x80) + 0x80 * (value / 0x80) == value);
    }
}

/// Calls `prost::encoding::encode_varint` on a vector. It appends the varint
/// form of `value` to `buf` and leaves what was there untouched.
#[verifier::external_body]
pub(crate) fn encode_varint(value: u64, buf: &mut Vec<u8>)
    ensures
        final(buf)@ == old(buf)@ + varint_bytes(value as nat),
{
    prost::encoding::encode_varint(value, buf);
}

} // verus!
