//! Stored objects: `kind SP size NUL payload`, with nothing after the payload.

use vstd::prelude::*;
use vstd::slice::*;
use vstd::string::*;

use crate::error::{outcome_view, ErrorView, HeaderFault, ObjectError};
use crate::header::{first_pos, header_outcome, is_first, lemma_first_pos, parse_header};

verus! {

/// The kinds of object this reader knows. Only a blob has a handler; any
/// other kind token is kept by name so that it can be reported.
pub enum ObjectKind {
    Blob,
    Unsupported(String),
}

pub open spec fn blob_name() -> Seq<char> {
    "blob"@
}

impl ObjectKind {
    /// The kind that a header's kind token names.
    pub fn from_name(name: &str) -> (r: ObjectKind)
        ensures
            r is Blob <==> name@ == blob_name(),
            r matches ObjectKind::Unsupported(k) ==> k@ == name@,
    {
        let owned = String::from_str(name);
        let blob = String::from_str("blob");
        if owned == blob {
            ObjectKind::Blob
        } else {
            ObjectKind::Unsupported(owned)
        }
    }
}

/// Hands a validated payload to the handler of its kind: a blob's payload
/// is returned byte for byte; any other kind is refused.
pub fn dispatch(kind: ObjectKind, payload: Vec<u8>) -> (r: Result<Vec<u8>, ObjectError>)
    ensures
        match kind {
            ObjectKind::Blob => r matches Ok(p) && p@ == payload@,
            ObjectKind::Unsupported(k) => r matches Err(e) && e@ == ErrorView::UnsupportedKind(k@),
        },
{
    match kind {
        ObjectKind::Blob => Ok(payload),
        ObjectKind::Unsupported(k) => Err(ObjectError::UnsupportedKind(k)),
    }
}

/// What comes of the payload `rest` that follows a header declaring `kind`
/// and `size`: it must be exactly `size` bytes, and only a blob is emitted.
pub open spec fn payload_outcome(kind: Seq<char>, size: nat, rest: Seq<u8>) -> Result<Seq<u8>, ErrorView> {
    if rest.len() < size {
        Err(ErrorView::TruncatedPayload { expected: size, received: rest.len() })
    } else if rest.len() > size {
        Err(ErrorView::TrailingData { expected: size })
    } else if kind == blob_name() {
        Ok(rest)
    } else {
        Err(ErrorView::UnsupportedKind(kind))
    }
}

/// What retrieving an object whose decompressed stream is `s` gives: the
/// header runs to the first NUL, and the payload is all that follows it.
pub open spec fn object_outcome(s: Seq<u8>) -> Result<Seq<u8>, ErrorView> {
    if !s.contains(0u8) {
        Err(ErrorView::MalformedHeader(HeaderFault::MissingTerminator))
    } else {
        let p = first_pos(s, 0u8);
        match header_outcome(s.subrange(0, p)) {
            Err(f) => Err(ErrorView::MalformedHeader(f)),
            Ok((kind, size)) => payload_outcome(kind, size, s.subrange(p + 1, s.len() as int)),
        }
    }
}

/// Reads an object from its whole decompressed stream.
pub fn parse_object(stream: &[u8]) -> (r: Result<Vec<u8>, ObjectError>)
    ensures
        outcome_view(r) == object_outcome(stream@),
{
    let len = stream.len();
    let mut p: usize = 0;
    while p < len
        invariant
            len == stream@.len(),
            p <= len,
            forall|j: int| 0 <= j < p ==> stream@[j] != 0u8,
        ensures
            p <= len,
            p < len ==> stream@[p as int] == 0u8,
            forall|j: int| 0 <= j < p ==> stream@[j] != 0u8,
        decreases len - p,
    {
        if stream[p] == 0u8 {
            break;
        }
        p = p + 1;
    }
    if p == len {
        return Err(ObjectError::MalformedHeader(HeaderFault::MissingTerminator));
    }
    proof {
        assert(is_first(stream@, 0u8, p as int));
        lemma_first_pos(stream@, 0u8, p as int);
    }
    let header = match parse_header(slice_subrange(stream, 0, p)) {
        Ok(h) => h,
        Err(f) => return Err(ObjectError::MalformedHeader(f)),
    };
    let received = len - p - 1;
    if received < header.size {
        return Err(ObjectError::TruncatedPayload { expected: header.size, received });
    }
    if received > header.size {
        return Err(ObjectError::TrailingData { expected: header.size });
    }
    let payload = slice_to_vec(slice_subrange(stream, p + 1, len));
    dispatch(ObjectKind::from_name(header.kind.as_str()), payload)
}

} // verus!
