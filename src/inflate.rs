//! Retrieval from the compressed bytes of an object file: the zlib stream is
//! inflated piece by piece, as the header and payload are read from it.

use vstd::prelude::*;

use flate2::read::ZlibDecoder;
use std::io::Read;

use crate::error::{outcome_view, HeaderFault, ObjectError};
use crate::header::{
    first_pos, header_outcome, header_view, is_first, lemma_first_pos, parse_header, Header,
};
use crate::object::{dispatch, object_outcome, ObjectKind};

verus! {

#[verifier::external_type_specification]
#[verifier::external_body]
#[verifier::reject_recursive_types(R)]
pub struct ExZlibDecoder<R>(ZlibDecoder<R>);

/// The bytes that the zlib stream in `compressed` inflates to; where the
/// stream is corrupt, those that come before the fault.
pub uninterp spec fn inflated(compressed: Seq<u8>) -> Seq<u8>;

/// The zlib stream in `compressed` runs to its end without a fault: it is
/// not corrupt, not cut short, and asks for no preset dictionary.
pub uninterp spec fn inflates_cleanly(compressed: Seq<u8>) -> bool;

/// The inflated bytes that the decoder `d` has still to deliver.
pub uninterp spec fn pending(d: ZlibDecoder<&[u8]>) -> Seq<u8>;

/// The decoder `d` will reach the end of its stream without a fault.
pub uninterp spec fn sound(d: ZlibDecoder<&[u8]>) -> bool;

/// Relies on flate2's `ZlibDecoder::new`: a decoder over `compressed` that
/// has delivered nothing yet.
#[verifier::external_body]
fn zlib_decoder(compressed: &[u8]) -> (r: ZlibDecoder<&[u8]>)
    ensures
        pending(r) == inflated(compressed@),
        sound(r) == inflates_cleanly(compressed@),
{
    ZlibDecoder::new(compressed)
}

/// Relies on `Read::read` of flate2's `ZlibDecoder`: `Ok(n)` has the next
/// `n` inflated bytes, at most `max`, and is `Ok(0)` only at the end of the
/// stream, which a faulty stream never reaches; a corrupt or incomplete
/// stream gives an error, here `None`, and a sound one never does.
#[verifier::external_body]
fn inflate_some(d: &mut ZlibDecoder<&[u8]>, max: usize) -> (r: Option<Vec<u8>>)
    requires
        max > 0,
    ensures
        sound(*old(d)) ==> r is Some,
        r matches Some(v) ==> {
            &&& sound(*final(d)) == sound(*old(d))
            &&& (v@.len() == 0 ==> sound(*old(d)))
            &&& v@.len() <= max
            &&& v@.len() <= pending(*old(d)).len()
            &&& v@ == pending(*old(d)).take(v@.len() as int)
            &&& pending(*final(d)) == pending(*old(d)).skip(v@.len() as int)
            &&& (v@.len() == 0 <==> pending(*old(d)).len() == 0)
        },
{
    let mut buf = vec![0u8; max];
    match d.read(&mut buf) {
        Ok(n) => {
            buf.truncate(n);
            Some(buf)
        },
        Err(_) => None,
    }
}

/// Most payload bytes asked of the decoder at once.
const READ_CHUNK: usize = 8192;

/// Retrieves an object from the compressed bytes of its file. The stream is
/// inflated only as far as each stage reads: the header up to its NUL, then
/// exactly the declared number of payload bytes, then one more read that
/// must find the end. Where the stream inflates cleanly, the result is what
/// the inflated stream gives as a whole. A faulty stream never gives a
/// payload, and one that faults before its first byte gives
/// `DecompressionError`.
pub fn read_object(compressed: &[u8]) -> (r: Result<Vec<u8>, ObjectError>)
    ensures
        match r {
            Err(ObjectError::DecompressionError) => true,
            _ => outcome_view(r) == object_outcome(inflated(compressed@)),
        },
        inflates_cleanly(compressed@) ==> outcome_view(r) == object_outcome(inflated(compressed@)),
        r is Ok ==> inflates_cleanly(compressed@),
        !inflates_cleanly(compressed@) && inflated(compressed@).len() == 0 ==> r matches Err(
            ObjectError::DecompressionError,
        ),
{
    let ghost s = inflated(compressed@);
    let mut d = zlib_decoder(compressed);
    let mut head: Vec<u8> = Vec::new();
    loop
        invariant_except_break
            pending(d) == s.skip(head@.len() as int),
        invariant
            s == inflated(compressed@),
            sound(d) == inflates_cleanly(compressed@),
            head@.len() <= s.len(),
            head@ == s.take(head@.len() as int),
            forall|j: int| 0 <= j < head@.len() ==> s[j] != 0u8,
        ensures
            head@.len() < s.len(),
            head@ == s.take(head@.len() as int),
            s[head@.len() as int] == 0u8,
            pending(d) == s.skip(head@.len() as int + 1),
            sound(d) == inflates_cleanly(compressed@),
            forall|j: int| 0 <= j < head@.len() ==> s[j] != 0u8,
        decreases s.len() - head@.len(),
    {
        let ghost before = pending(d);
        let v = match inflate_some(&mut d, 1) {
            Some(v) => v,
            None => return Err(ObjectError::DecompressionError),
        };
        if v.len() == 0 {
            proof {
                assert(before.len() == 0);
                assert(s.len() == head@.len());
                assert(!s.contains(0u8));
            }
            return Err(ObjectError::MalformedHeader(HeaderFault::MissingTerminator));
        }
        let b = v[0];
        assert(b == s[head@.len() as int]);
        if b == 0u8 {
            proof {
                assert(pending(d) =~= s.skip(head@.len() as int + 1));
            }
            break;
        }
        head.push(b);
        proof {
            assert(head@ =~= s.take(head@.len() as int));
            assert(pending(d) =~= s.skip(head@.len() as int));
        }
    }
    let ghost p = head@.len() as int;
    proof {
        assert(is_first(s, 0u8, p));
        lemma_first_pos(s, 0u8, p);
        assert(s.subrange(0, p) =~= head@);
    }
    let header = match parse_header(head.as_slice()) {
        Ok(h) => h,
        Err(f) => return Err(ObjectError::MalformedHeader(f)),
    };
    let size = header.size;
    let ghost rest = s.subrange(p + 1, s.len() as int);
    assert(pending(d) =~= rest);
    let mut payload: Vec<u8> = Vec::new();
    while payload.len() < size
        invariant
            s == inflated(compressed@),
            sound(d) == inflates_cleanly(compressed@),
            rest == s.subrange(p + 1, s.len() as int),
            0 <= p < s.len(),
            s[p] == 0u8,
            first_pos(s, 0u8) == p,
            s.subrange(0, p) == head@,
            header_view(Ok::<Header, HeaderFault>(header)) == header_outcome(head@),
            size == header.size,
            payload@.len() <= size,
            payload@.len() <= rest.len(),
            payload@ == rest.take(payload@.len() as int),
            pending(d) == rest.skip(payload@.len() as int),
        decreases size - payload@.len(),
    {
        let left = size - payload.len();
        let want = if left < READ_CHUNK {
            left
        } else {
            READ_CHUNK
        };
        let ghost before = pending(d);
        let mut v = match inflate_some(&mut d, want) {
            Some(v) => v,
            None => return Err(ObjectError::DecompressionError),
        };
        if v.len() == 0 {
            assert(rest.len() == payload@.len());
            return Err(ObjectError::TruncatedPayload { expected: size, received: payload.len() });
        }
        payload.append(&mut v);
        proof {
            assert(payload@ =~= rest.take(payload@.len() as int));
            assert(pending(d) =~= rest.skip(payload@.len() as int));
        }
    }
    let tail = match inflate_some(&mut d, 1) {
        Some(v) => v,
        None => return Err(ObjectError::DecompressionError),
    };
    if tail.len() != 0 {
        return Err(ObjectError::TrailingData { expected: size });
    }
    proof {
        assert(payload@ =~= rest);
    }
    dispatch(ObjectKind::from_name(header.kind.as_str()), payload)
}

} // verus!
