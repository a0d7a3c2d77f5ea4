//! Big-endian byte encoding of short event ids and of chains of them.
//!
//! An id is written as eight bytes, most significant first. A chain is the
//! concatenation of its ids' encodings, with no delimiter and no length
//! prefix: the number of ids is the number of bytes divided by eight.

use vstd::prelude::*;
use crate::error::Error;

verus! {

/// Number of bytes that one encoded short event id takes.
pub const ID_BYTES: usize = 8;

/// The eight bytes of `id`, most significant first.
#[verifier::opaque]
pub open spec fn id_bytes(id: u64) -> Seq<u8> {
    seq![
        (id / 0x100_0000_0000_0000) as u8,
        (id / 0x1_0000_0000_0000 % 0x100) as u8,
        (id / 0x100_0000_0000 % 0x100) as u8,
        (id / 0x1_0000_0000 % 0x100) as u8,
        (id / 0x100_0000 % 0x100) as u8,
        (id / 0x1_0000 % 0x100) as u8,
        (id / 0x100 % 0x100) as u8,
        (id % 0x100) as u8,
    ]
}

/// The id whose big-endian encoding is the first eight bytes of `bytes`.
#[verifier::opaque]
pub open spec fn id_of_bytes(bytes: Seq<u8>) -> u64 {
    (bytes[0] * 0x100_0000_0000_0000 + bytes[1] * 0x1_0000_0000_0000 + bytes[2] * 0x100_0000_0000
        + bytes[3] * 0x1_0000_0000 + bytes[4] * 0x100_0000 + bytes[5] * 0x1_0000 + bytes[6] * 0x100
        + bytes[7]) as u64
}

/// The encoding of a chain: byte `j` is byte `j % 8` of the id at `j / 8`.
pub open spec fn chain_bytes(chain: Seq<u64>) -> Seq<u8> {
    Seq::new(8 * chain.len(), |j: int| id_bytes(chain[j / 8])[j % 8])
}

/// Whether `bytes` consists of whole eight-byte ids.
pub open spec fn well_framed(bytes: Seq<u8>) -> bool {
    bytes.len() % 8 == 0
}

/// The chain that `bytes` encodes: one id for each full group of eight bytes.
pub open spec fn chain_of_bytes(bytes: Seq<u8>) -> Seq<u64> {
    Seq::new(bytes.len() / 8, |k: int| id_of_bytes(bytes.subrange(8 * k, 8 * k + 8)))
}

/// Decoding the eight bytes of an id gives the id back.
pub proof fn lemma_id_round_trip(id: u64)
    ensures
        id_bytes(id).len() == 8,
        id_of_bytes(id_bytes(id)) == id,
{
    reveal(id_bytes);
    reveal(id_of_bytes);
    assert(id / 0x100_0000_0000_0000 < 0x100) by (bit_vector);
    assert(id == (id / 0x100_0000_0000_0000) * 0x100_0000_0000_0000 + (id / 0x1_0000_0000_0000
        % 0x100) * 0x1_0000_0000_0000 + (id / 0x100_0000_0000 % 0x100) * 0x100_0000_0000 + (id
        / 0x1_0000_0000 % 0x100) * 0x1_0000_0000 + (id / 0x100_0000 % 0x100) * 0x100_0000 + (id
        / 0x1_0000 % 0x100) * 0x1_0000 + (id / 0x100 % 0x100) * 0x100 + id % 0x100)
        by (bit_vector);
}

/// Encoding the id that eight bytes decode to gives the eight bytes back.
pub proof fn lemma_bytes_round_trip(bytes: Seq<u8>)
    requires
        bytes.len() == 8,
    ensures
        id_bytes(id_of_bytes(bytes)) == bytes,
{
    reveal(id_bytes);
    reveal(id_of_bytes);
    let b0: u8 = bytes[0];
    let b1: u8 = bytes[1];
    let b2: u8 = bytes[2];
    let b3: u8 = bytes[3];
    let b4: u8 = bytes[4];
    let b5: u8 = bytes[5];
    let b6: u8 = bytes[6];
    let b7: u8 = bytes[7];
    let id: u64 = id_of_bytes(bytes);
    assert(id == b0 * 0x100_0000_0000_0000 + b1 * 0x1_0000_0000_0000 + b2 * 0x100_0000_0000 + b3
        * 0x1_0000_0000 + b4 * 0x100_0000 + b5 * 0x1_0000 + b6 * 0x100 + b7);
    assert(id == b0 * 0x100_0000_0000_0000 + b1 * 0x1_0000_0000_0000 + b2 * 0x100_0000_0000 + b3
        * 0x1_0000_0000 + b4 * 0x100_0000 + b5 * 0x1_0000 + b6 * 0x100 + b7 ==> id
        / 0x100_0000_0000_0000 == b0 && id / 0x1_0000_0000_0000 % 0x100 == b1 && id
        / 0x100_0000_0000 % 0x100 == b2 && id / 0x1_0000_0000 % 0x100 == b3 && id / 0x100_0000
        % 0x100 == b4 && id / 0x1_0000 % 0x100 == b5 && id / 0x100 % 0x100 == b6 && id % 0x100
        == b7) by (bit_vector);
    assert(id_bytes(id) =~= bytes);
}

/// Two ids with the same encoding are the same id.
pub proof fn lemma_id_bytes_injective(a: u64, b: u64)
    requires
        id_bytes(a) == id_bytes(b),
    ensures
        a == b,
{
    lemma_id_round_trip(a);
    lemma_id_round_trip(b);
}

/// A chain of `n` ids is encoded in `8 * n` bytes, and decoding them gives
/// exactly the `n` ids in the same order.
pub proof fn lemma_chain_round_trip(chain: Seq<u64>)
    ensures
        chain_bytes(chain).len() == 8 * chain.len(),
        well_framed(chain_bytes(chain)),
        chain_of_bytes(chain_bytes(chain)) == chain,
{
    let bytes = chain_bytes(chain);
    assert(chain_of_bytes(bytes).len() == chain.len());
    assert forall|k: int| 0 <= k < chain.len() implies #[trigger] chain_of_bytes(bytes)[k]
        == chain[k] by {
        let group = bytes.subrange(8 * k, 8 * k + 8);
        lemma_id_round_trip(chain[k]);
        assert forall|i: int| 0 <= i < 8 implies group[i] == id_bytes(chain[k])[i] by {
            assert((8 * k + i) / 8 == k && (8 * k + i) % 8 == i);
        }
        assert(group =~= id_bytes(chain[k]));
    }
    assert(chain_of_bytes(bytes) =~= chain);
}

/// Well-framed bytes are the encoding of the chain they decode to.
pub proof fn lemma_chain_bytes_round_trip(bytes: Seq<u8>)
    requires
        well_framed(bytes),
    ensures
        chain_of_bytes(bytes).len() * 8 == bytes.len(),
        chain_bytes(chain_of_bytes(bytes)) == bytes,
{
    let chain = chain_of_bytes(bytes);
    assert(chain_bytes(chain).len() == bytes.len());
    assert forall|j: int| 0 <= j < bytes.len() implies #[trigger] chain_bytes(chain)[j]
        == bytes[j] by {
        let k: int = j / 8;
        let group = bytes.subrange(8 * k, 8 * k + 8);
        assert(chain[k] == id_of_bytes(group));
        lemma_bytes_round_trip(group);
        assert(group[j % 8] == bytes[8 * k + j % 8]);
    }
    assert(chain_bytes(chain) =~= bytes);
}

/// Encodes one short event id as its eight big-endian bytes.
pub fn encode_id(id: u64) -> (bytes: [u8; 8])
    ensures
        bytes@ == id_bytes(id),
{
    reveal(id_bytes);
    assert((id >> 56) & 0xff == id / 0x100_0000_0000_0000) by (bit_vector);
    assert((id >> 48) & 0xff == id / 0x1_0000_0000_0000 % 0x100) by (bit_vector);
    assert((id >> 40) & 0xff == id / 0x100_0000_0000 % 0x100) by (bit_vector);
    assert((id >> 32) & 0xff == id / 0x1_0000_0000 % 0x100) by (bit_vector);
    assert((id >> 24) & 0xff == id / 0x100_0000 % 0x100) by (bit_vector);
    assert((id >> 16) & 0xff == id / 0x1_0000 % 0x100) by (bit_vector);
    assert((id >> 8) & 0xff == id / 0x100 % 0x100) by (bit_vector);
    assert(id & 0xff == id % 0x100) by (bit_vector);
    let bytes: [u8; 8] = [
        ((id >> 56) & 0xff) as u8,
        ((id >> 48) & 0xff) as u8,
        ((id >> 40) & 0xff) as u8,
        ((id >> 32) & 0xff) as u8,
        ((id >> 24) & 0xff) as u8,
        ((id >> 16) & 0xff) as u8,
        ((id >> 8) & 0xff) as u8,
        (id & 0xff) as u8,
    ];
    assert(bytes@ =~= id_bytes(id));
    bytes
}

/// Reads the id whose encoding starts at `offset` in `bytes`.
fn id_at(bytes: &[u8], offset: usize) -> (id: u64)
    requires
        offset + 8 <= bytes@.len(),
    ensures
        id == id_of_bytes(bytes@.subrange(offset as int, offset + 8)),
{
    reveal(id_of_bytes);
    let b0: u64 = bytes[offset] as u64;
    let b1: u64 = bytes[offset + 1] as u64;
    let b2: u64 = bytes[offset + 2] as u64;
    let b3: u64 = bytes[offset + 3] as u64;
    let b4: u64 = bytes[offset + 4] as u64;
    let b5: u64 = bytes[offset + 5] as u64;
    let b6: u64 = bytes[offset + 6] as u64;
    let b7: u64 = bytes[offset + 7] as u64;
    assert(b0 < 0x100 && b1 < 0x100 && b2 < 0x100 && b3 < 0x100 && b4 < 0x100 && b5 < 0x100 && b6
        < 0x100 && b7 < 0x100 ==> (b0 << 56 | b1 << 48 | b2 << 40 | b3 << 32 | b4 << 24 | b5 << 16
        | b6 << 8 | b7) == b0 * 0x100_0000_0000_0000 + b1 * 0x1_0000_0000_0000 + b2
        * 0x100_0000_0000 + b3 * 0x1_0000_0000 + b4 * 0x100_0000 + b5 * 0x1_0000 + b6 * 0x100 + b7)
        by (bit_vector);
    b0 << 56 | b1 << 48 | b2 << 40 | b3 << 32 | b4 << 24 | b5 << 16 | b6 << 8 | b7
}

/// Encodes a chain as the concatenation of its ids' encodings, in chain order.
pub fn encode_chain(chain: &[u64]) -> (bytes: Vec<u8>)
    ensures
        bytes@ == chain_bytes(chain@),
{
    let mut bytes: Vec<u8> = Vec::new();
    let mut k: usize = 0;
    while k < chain.len()
        invariant
            k <= chain@.len(),
            bytes@ == chain_bytes(chain@.take(k as int)),
        decreases chain@.len() - k,
    {
        let group = encode_id(chain[k]);
        let ghost before = bytes@;
        let mut i: usize = 0;
        while i < 8
            invariant
                i <= 8,
                group@ == id_bytes(chain@[k as int]),
                bytes@ == before + group@.take(i as int),
            decreases 8 - i,
        {
            bytes.push(group[i]);
            i += 1;
            assert(bytes@ =~= before + group@.take(i as int));
        }
        k += 1;
        assert(bytes@ =~= chain_bytes(chain@.take(k as int)));
    }
    assert(chain@.take(k as int) =~= chain@);
    bytes
}

/// Decodes a durable value into the chain it encodes.
///
/// A value whose length is not a multiple of eight is never accepted: it is
/// reported as corrupt, and no prefix of it is decoded.
pub fn decode_chain(bytes: &[u8]) -> (r: Result<Vec<u64>, Error>)
    ensures
        match r {
            Ok(chain) => well_framed(bytes@) && chain@ == chain_of_bytes(bytes@),
            Err(e) => !well_framed(bytes@) && e == Error::CorruptEncoding,
        },
{
    if bytes.len() % ID_BYTES != 0 {
        return Err(Error::CorruptEncoding);
    }
    let count: usize = bytes.len() / ID_BYTES;
    let mut chain: Vec<u64> = Vec::new();
    let mut k: usize = 0;
    while k < count
        invariant
            k <= count,
            count == bytes@.len() / 8,
            bytes@.len() % 8 == 0,
            bytes@.len() <= usize::MAX,
            chain@ == chain_of_bytes(bytes@).take(k as int),
        decreases count - k,
    {
        let id: u64 = id_at(bytes, k * ID_BYTES);
        chain.push(id);
        k += 1;
        assert(chain@ =~= chain_of_bytes(bytes@).take(k as int));
    }
    assert(chain_of_bytes(bytes@).take(k as int) =~= chain_of_bytes(bytes@));
    Ok(chain)
}

} // verus!
