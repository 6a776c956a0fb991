use vstd::prelude::*;

use crate::error::DecodeError;
use crate::varint::{get_u64, lemma_varint_round_trip, put_u64, read_varint, varint_bytes, U64_MAX_TAG};

verus! {

/// Represents a typed collection of values.
///
/// Programs take different types of values as input. What matters is the order
/// of values inside each type. The order between types doesn't matter. The
/// kind of initial secret sharing also affects the type of values.
#[derive(Clone, Debug, PartialEq, Eq)]
pub struct Values {
    /// The values for B8.
    pub b8: Vec<u8>,
}

impl View for Values {
    type V = Seq<u8>;

    open spec fn view(&self) -> Seq<u8> {
        self.b8@
    }
}

/// The bytes of a value container: the number of `b8` values, then each of
/// them.
pub open spec fn values_bytes(b8: Seq<u8>) -> Seq<u8> {
    varint_bytes(b8.len()) + b8
}

/// Reads a value container from the front of `s`: its `b8` values and the
/// number of bytes it took.
pub open spec fn parse_values(s: Seq<u8>) -> Result<(Seq<u8>, nat), DecodeError> {
    match read_varint(s, U64_MAX_TAG) {
        Err(e) => Err(e),
        Ok((n, k)) => if s.len() < k + n {
            Err(DecodeError::UnexpectedEnd)
        } else {
            Ok((s.subrange(k as int, (k + n) as int), k + n))
        },
    }
}

impl Values {
    /// The bytes of this container.
    pub fn encode(&self) -> (r: Vec<u8>)
        ensures
            r@ == values_bytes(self@),
    {
        let n = self.b8.len();
        let mut out: Vec<u8> = Vec::new();
        put_u64(&mut out, n as u64);
        let ghost head = out@;
        let mut i: usize = 0;
        while i < n
            invariant
                n == self.b8@.len(),
                i <= n,
                out@ == head + self.b8@.take(i as int),
            decreases n - i,
        {
            out.push(self.b8[i]);
            i = i + 1;
            assert(self.b8@.take(i as int) =~= self.b8@.take(i - 1).push(self.b8@[i - 1]));
        }
        assert(self.b8@.take(n as int) =~= self.b8@);
        out
    }

    /// Decodes a container from the front of `bytes`, with the number of bytes
    /// it took.
    pub fn decode(bytes: &[u8]) -> (r: Result<(Values, usize), DecodeError>)
        ensures
            r is Ok ==> parse_values(bytes@) == Ok::<(Seq<u8>, nat), DecodeError>(
                (r->Ok_0.0@, r->Ok_0.1 as nat),
            ),
            r is Err ==> parse_values(bytes@) == Err::<(Seq<u8>, nat), DecodeError>(r->Err_0),
    {
        assert(bytes@.skip(0) =~= bytes@);
        let (count, start) = match get_u64(bytes, 0) {
            Ok(p) => p,
            Err(e) => return Err(e),
        };
        if count > (bytes.len() - start) as u64 {
            return Err(DecodeError::UnexpectedEnd);
        }
        let end = start + count as usize;
        let mut b8: Vec<u8> = Vec::new();
        let mut at = start;
        while at < end
            invariant
                start <= at <= end <= bytes@.len(),
                b8@ == bytes@.subrange(start as int, at as int),
            decreases end - at,
        {
            b8.push(bytes[at]);
            at = at + 1;
            assert(b8@ =~= bytes@.subrange(start as int, at as int));
        }
        Ok((Values { b8 }, end))
    }
}

/// Decoding the bytes of a value container gives back its values, and takes
/// all of its bytes.
pub proof fn lemma_values_round_trip(b8: Seq<u8>)
    requires
        b8.len() <= u64::MAX,
    ensures
        parse_values(values_bytes(b8)) == Ok::<(Seq<u8>, nat), DecodeError>(
            (b8, values_bytes(b8).len()),
        ),
{
    let a = varint_bytes(b8.len());
    lemma_varint_round_trip(b8.len(), U64_MAX_TAG, b8);
    assert(values_bytes(b8).subrange(a.len() as int, (a.len() + b8.len()) as int) =~= b8);
}

} // verus!
