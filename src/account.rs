use vstd::prelude::*;

verus! {

/// Tag that opens every serialized counter record: the first eight bytes of
/// the SHA-256 digest of `account:CounterAccount`.
pub const ACCOUNT_DISCRIMINATOR: [u8; 8] = [164, 8, 153, 71, 8, 44, 93, 22];

/// Length in bytes of a serialized counter record.
pub const ACCOUNT_LEN: usize = 16;

/// The counter record bound to one identity.
#[derive(Clone, Copy, Debug, PartialEq, Eq)]
pub struct CounterAccount {
    pub count: u64,
}

/// Why a byte buffer is not a counter record.
#[derive(Clone, Copy, Debug, PartialEq, Eq)]
pub enum LayoutError {
    /// Fewer bytes than the discriminator needs.
    DiscriminatorNotFound,
    /// The first eight bytes are not the counter discriminator.
    DiscriminatorMismatch,
    /// The discriminator is followed by fewer than eight bytes.
    DidNotDeserialize,
}

/// The eight little-endian bytes of `n`.
pub open spec fn le_bytes(n: u64) -> Seq<u8> {
    seq![
        (n & 0xff) as u8,
        ((n >> 8u64) & 0xff) as u8,
        ((n >> 16u64) & 0xff) as u8,
        ((n >> 24u64) & 0xff) as u8,
        ((n >> 32u64) & 0xff) as u8,
        ((n >> 40u64) & 0xff) as u8,
        ((n >> 48u64) & 0xff) as u8,
        ((n >> 56u64) & 0xff) as u8,
    ]
}

/// The integer whose little-endian bytes are the first eight of `b`.
pub open spec fn le_value(b: Seq<u8>) -> u64
    recommends
        b.len() >= 8,
{
    (b[0] as u64) | ((b[1] as u64) << 8u64) | ((b[2] as u64) << 16u64) | ((b[3] as u64)
        << 24u64) | ((b[4] as u64) << 32u64) | ((b[5] as u64) << 40u64) | ((b[6] as u64)
        << 48u64) | ((b[7] as u64) << 56u64)
}

/// The serialized form of a record: discriminator, then the count.
pub open spec fn encode_account(a: CounterAccount) -> Seq<u8> {
    ACCOUNT_DISCRIMINATOR@ + le_bytes(a.count)
}

/// What reading a record from `b` gives. Bytes after the count are ignored.
pub open spec fn decode_account(b: Seq<u8>) -> Result<CounterAccount, LayoutError> {
    if b.len() < 8 {
        Err(LayoutError::DiscriminatorNotFound)
    } else if b.take(8) != ACCOUNT_DISCRIMINATOR@ {
        Err(LayoutError::DiscriminatorMismatch)
    } else if b.len() < 16 {
        Err(LayoutError::DidNotDeserialize)
    } else {
        Ok(CounterAccount { count: le_value(b.subrange(8, 16)) })
    }
}

/// Reading the little-endian bytes of `n` gives `n` back.
pub proof fn lemma_le_round_trip(n: u64)
    ensures
        le_bytes(n).len() == 8,
        le_value(le_bytes(n)) == n,
{
    assert((((n & 0xff) as u8) as u64) | (((((n >> 8u64) & 0xff) as u8) as u64) << 8u64) | (
    ((((n >> 16u64) & 0xff) as u8) as u64) << 16u64) | (((((n >> 24u64) & 0xff) as u8) as u64)
        << 24u64) | (((((n >> 32u64) & 0xff) as u8) as u64) << 32u64) | (((((n >> 40u64) & 0xff)
        as u8) as u64) << 40u64) | (((((n >> 48u64) & 0xff) as u8) as u64) << 48u64) | (((((n
        >> 56u64) & 0xff) as u8) as u64) << 56u64) == n) by (bit_vector);
}

/// Reading a serialized record gives the same record back.
pub proof fn lemma_account_round_trip(a: CounterAccount)
    ensures
        encode_account(a).len() == ACCOUNT_LEN,
        decode_account(encode_account(a)) == Ok::<CounterAccount, LayoutError>(a),
{
    lemma_le_round_trip(a.count);
    let e = encode_account(a);
    assert(e.take(8) =~= ACCOUNT_DISCRIMINATOR@);
    assert(e.subrange(8, 16) =~= le_bytes(a.count));
}

impl CounterAccount {
    /// A fresh record, as `initialize` creates it.
    pub fn new() -> (r: CounterAccount)
        ensures
            r.count == 0,
    {
        CounterAccount { count: 0 }
    }

    /// The record's serialized form: the discriminator, then the count as
    /// eight little-endian bytes.
    pub fn try_serialize(&self) -> (r: Vec<u8>)
        ensures
            r@ == encode_account(*self),
            r@.len() == ACCOUNT_LEN,
    {
        let mut out: Vec<u8> = Vec::new();
        let mut i: usize = 0;
        while i < 8
            invariant
                i <= 8,
                out@ == ACCOUNT_DISCRIMINATOR@.take(i as int),
            decreases 8 - i,
        {
            out.push(ACCOUNT_DISCRIMINATOR[i]);
            assert(ACCOUNT_DISCRIMINATOR@.take(i + 1) =~= ACCOUNT_DISCRIMINATOR@.take(i as int).push(
                ACCOUNT_DISCRIMINATOR@[i as int],
            ));
            i = i + 1;
        }
        let n: u64 = self.count;
        out.push((n & 0xff) as u8);
        out.push(((n >> 8u64) & 0xff) as u8);
        out.push(((n >> 16u64) & 0xff) as u8);
        out.push(((n >> 24u64) & 0xff) as u8);
        out.push(((n >> 32u64) & 0xff) as u8);
        out.push(((n >> 40u64) & 0xff) as u8);
        out.push(((n >> 48u64) & 0xff) as u8);
        out.push(((n >> 56u64) & 0xff) as u8);
        assert(ACCOUNT_DISCRIMINATOR@.take(8) =~= ACCOUNT_DISCRIMINATOR@);
        assert(out@ =~= encode_account(*self));
        out
    }

    /// Reads a record from `data`: the discriminator must open it and eight
    /// bytes of count must follow; anything after them is ignored.
    pub fn try_deserialize(data: &[u8]) -> (r: Result<CounterAccount, LayoutError>)
        ensures
            r == decode_account(data@),
    {
        if data.len() < 8 {
            return Err(LayoutError::DiscriminatorNotFound);
        }
        let mut i: usize = 0;
        while i < 8
            invariant
                i <= 8,
                data@.len() >= 8,
                forall|j: int| 0 <= j < i ==> data@[j] == ACCOUNT_DISCRIMINATOR@[j],
            decreases 8 - i,
        {
            if data[i] != ACCOUNT_DISCRIMINATOR[i] {
                assert(data@.take(8)[i as int] != ACCOUNT_DISCRIMINATOR@[i as int]);
                return Err(LayoutError::DiscriminatorMismatch);
            }
            i = i + 1;
        }
        assert(data@.take(8) =~= ACCOUNT_DISCRIMINATOR@);
        if data.len() < 16 {
            return Err(LayoutError::DidNotDeserialize);
        }
        let count: u64 = (data[8] as u64) | ((data[9] as u64) << 8u64) | ((data[10] as u64) << 16u64)
            | ((data[11] as u64) << 24u64) | ((data[12] as u64) << 32u64) | ((data[13] as u64)
            << 40u64) | ((data[14] as u64) << 48u64) | ((data[15] as u64) << 56u64);
        Ok(CounterAccount { count })
    }
}

} // verus!
