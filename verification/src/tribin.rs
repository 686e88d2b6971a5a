use crate::tryte::{in_tryte_range, Tryte};
use crate::vm::MEM_SIZE;
use vstd::prelude::*;

verus! {

broadcast use {crate::tryte::lemma_from_int_view, crate::tryte::lemma_from_view};

/// Why a raw binary image cannot be loaded.
#[derive(Debug, Clone, Copy, PartialEq, Eq, Structural)]
pub enum TribinError {
    /// The image is shorter than one value, or has an odd number of bytes.
    OddLength,
    /// A 16-bit value outside the tryte range, at the given byte offset.
    InvalidTryte { word: i16, offset: usize },
    /// The image holds more trytes than memory.
    TooLarge,
}

/// The signed 16-bit value of two little-endian bytes.
pub open spec fn le_word(lo: u8, hi: u8) -> int {
    let u = lo + 256 * hi;
    if u >= 32768 {
        u - 65536
    } else {
        u
    }
}

/// The trytes of an image from value `k` on: each value must be a tryte, and
/// at most `MEM_SIZE` of them fit.
pub open spec fn values_from(data: Seq<u8>, k: int) -> Result<Seq<Tryte>, TribinError>
    decreases data.len() - 2 * k,
{
    if k < 0 || 2 * k + 1 >= data.len() {
        Ok(Seq::empty())
    } else {
        let w = le_word(data[2 * k], data[2 * k + 1]);
        if !in_tryte_range(w) {
            Err(TribinError::InvalidTryte { word: w as i16, offset: (2 * k) as usize })
        } else if k >= MEM_SIZE {
            Err(TribinError::TooLarge)
        } else {
            match values_from(data, k + 1) {
                Ok(rest) => Ok(seq![Tryte::from_int(w)] + rest),
                Err(e) => Err(e),
            }
        }
    }
}

/// The trytes of a raw binary image: little-endian signed 16-bit values.
pub open spec fn spec_decode_tribin(data: Seq<u8>) -> Result<Seq<Tryte>, TribinError> {
    if data.len() < 2 || data.len() % 2 != 0 {
        Err(TribinError::OddLength)
    } else {
        values_from(data, 0)
    }
}

/// Reads a raw binary image: pairs of bytes, each a little-endian signed
/// 16-bit tryte value, in memory order.
pub fn decode_tribin(data: &[u8]) -> (r: Result<Vec<Tryte>, TribinError>)
    ensures
        match spec_decode_tribin(data@) {
            Ok(ts) => (r matches Ok(v) && v@ == ts),
            Err(e) => r == Err::<Vec<Tryte>, TribinError>(e),
        },
{
    if data.len() < 2 || data.len() % 2 != 0 {
        return Err(TribinError::OddLength);
    }
    let mut out: Vec<Tryte> = Vec::new();
    let mut k: usize = 0;
    proof {
        match values_from(data@, 0) {
            Ok(x) => assert(out@ + x =~= x),
            Err(_) => {},
        }
    }
    while 2 * k < data.len()
        invariant
            data.len() % 2 == 0,
            2 * k <= data.len(),
            out@.len() == k,
            match values_from(data@, 0) {
                Ok(all) => (values_from(data@, k as int) matches Ok(rest) && all == out@ + rest),
                Err(e) => values_from(data@, k as int) == Err::<Seq<Tryte>, TribinError>(e),
            },
        decreases data.len() - 2 * k,
    {
        let lo = data[2 * k];
        let hi = data[2 * k + 1];
        let u: i32 = lo as i32 + 256 * (hi as i32);
        let w: i32 = if u >= 32768 {
            u - 65536
        } else {
            u
        };
        let word = w as i16;
        let t = match Tryte::from_i16(word) {
            Some(t) => t,
            None => {
                return Err(TribinError::InvalidTryte { word, offset: 2 * k });
            },
        };
        if k >= MEM_SIZE {
            return Err(TribinError::TooLarge);
        }
        let ghost before = out@;
        out.push(t);
        proof {
            match values_from(data@, k + 1) {
                Ok(rest) => assert(before + (seq![t] + rest) =~= out@ + rest),
                Err(_) => {},
            }
        }
        k = k + 1;
    }
    proof {
        assert(out@ + Seq::<Tryte>::empty() =~= out@);
    }
    Ok(out)
}

} // verus!
