//! Properties of object retrieval, stated over the decompressed stream that
//! `read_object` and `parse_object` are specified by.

use vstd::prelude::*;
use vstd::string::*;
use vstd::utf8::*;

use crate::error::{ErrorView, HeaderFault};
use crate::header::{digits_value, is_digit, is_first, lemma_first_pos, size_value};
use crate::object::{blob_name, object_outcome, payload_outcome};

verus! {

broadcast use encode_utf8_valid_utf8, encode_utf8_decode_utf8;

pub open spec fn digit_char(d: nat) -> char {
    if d == 0 { '0' }
    else if d == 1 { '1' }
    else if d == 2 { '2' }
    else if d == 3 { '3' }
    else if d == 4 { '4' }
    else if d == 5 { '5' }
    else if d == 6 { '6' }
    else if d == 7 { '7' }
    else if d == 8 { '8' }
    else { '9' }
}

/// The decimal digits of `n`, without leading zeros.
pub open spec fn decimal(n: nat) -> Seq<char>
    decreases n,
{
    if n < 10 {
        seq![digit_char(n)]
    } else {
        decimal(n / 10) + seq![digit_char(n % 10)]
    }
}

/// A decompressed stream whose header is `kind SP token`, followed by NUL
/// and `body`.
pub open spec fn framed(kind: Seq<char>, token: Seq<char>, body: Seq<u8>) -> Seq<u8> {
    encode_utf8(kind + seq![' '] + token) + seq![0u8] + body
}

/// The decompressed stream of a blob holding `payload`.
pub open spec fn blob_stream(payload: Seq<u8>) -> Seq<u8> {
    framed(blob_name(), decimal(payload.len()), payload)
}

pub open spec fn has_no_nul(t: Seq<char>) -> bool {
    forall|i: int| 0 <= i < t.len() ==> t[i] != '\0'
}

pub open spec fn is_kind_token(kind: Seq<char>) -> bool {
    has_no_nul(kind) && forall|i: int| 0 <= i < kind.len() ==> kind[i] != ' '
}

proof fn lemma_decimal(n: nat)
    ensures
        decimal(n).len() > 0,
        forall|i: int| 0 <= i < decimal(n).len() ==> is_digit(#[trigger] decimal(n)[i]),
        has_no_nul(decimal(n)),
        digits_value(decimal(n)) == n,
    decreases n,
{
    let t = decimal(n);
    if n >= 10 {
        lemma_decimal(n / 10);
        assert(t.drop_last() =~= decimal(n / 10));
        assert(n == (n / 10) * 10 + n % 10) by (nonlinear_arith);
        assert(digit_char(n % 10) as nat - '0' as nat == n % 10);
        assert(t.last() == digit_char(n % 10));
        assert(digits_value(t) == digits_value(t.drop_last()) * 10 + (t.last() as nat
            - '0' as nat) as nat);
    } else {
        assert(t.drop_last() =~= Seq::<char>::empty());
        assert(digit_char(n) as nat - '0' as nat == n);
        assert(t.last() == digit_char(n));
        assert(digits_value(t) == digits_value(t.drop_last()) * 10 + (t.last() as nat
            - '0' as nat) as nat);
        assert(digits_value(t.drop_last()) == 0);
    }
}

proof fn lemma_scalar_bytes_nonzero(c: u32)
    requires
        is_scalar(c),
        c != 0,
    ensures
        forall|i: int| 0 <= i < encode_scalar(c).len() ==> encode_scalar(c)[i] != 0u8,
{
    let e = encode_scalar(c);
    if has_width_1_encoding(c) {
        assert((c & 0x7F) as u8 != 0u8) by (bit_vector)
            requires
                c != 0,
                c <= 0x7F,
        ;
    } else {
        assert(forall|x: u8| #[trigger] (0xC0u8 | x) != 0u8) by (bit_vector);
        assert(forall|x: u8| #[trigger] (0xE0u8 | x) != 0u8) by (bit_vector);
        assert(forall|x: u8| #[trigger] (0xF0u8 | x) != 0u8) by (bit_vector);
        assert(forall|x: u8| #[trigger] (0x80u8 | x) != 0u8) by (bit_vector);
    }
}

proof fn lemma_encode_no_nul(t: Seq<char>)
    requires
        has_no_nul(t),
    ensures
        !encode_utf8(t).contains(0u8),
    decreases t.len(),
{
    if t.len() > 0 {
        let c = t[0] as u32;
        char_is_scalar(t[0]);
        if c == 0 {
            char_u32_cast(t[0], 0);
            char_u32_cast('\0', 0);
        }
        lemma_scalar_bytes_nonzero(c);
        lemma_encode_no_nul(t.drop_first());
        let a = encode_scalar(c);
        let b = encode_utf8(t.drop_first());
        assert(encode_utf8(t) == a + b);
        assert forall|i: int| 0 <= i < (a + b).len() implies (a + b)[i] != 0u8 by {
            if i >= a.len() {
                assert((a + b)[i] == b[i - a.len()]);
            }
        }
    }
}

/// How a stream framed with a well-formed kind and any size token is read:
/// the header splits at the space after the kind, and the token decides the
/// size.
pub proof fn lemma_framed_outcome(kind: Seq<char>, token: Seq<char>, body: Seq<u8>)
    requires
        is_kind_token(kind),
        has_no_nul(token),
    ensures
        object_outcome(framed(kind, token, body)) == match size_value(token) {
            Some(n) => payload_outcome(kind, n, body),
            None => Err(ErrorView::MalformedHeader(HeaderFault::InvalidSize)),
        },
{
    let text = kind + seq![' '] + token;
    assert(has_no_nul(text));
    lemma_encode_no_nul(text);
    let h = encode_utf8(text);
    let s = framed(kind, token, body);
    assert(s[h.len() as int] == 0u8);
    assert(is_first(s, 0u8, h.len() as int));
    lemma_first_pos(s, 0u8, h.len() as int);
    assert(s.subrange(0, h.len() as int) =~= h);
    assert(s.subrange(h.len() as int + 1, s.len() as int) =~= body);
    let i = kind.len() as int;
    assert(text[i] == ' ');
    assert(is_first(text, ' ', i));
    lemma_first_pos(text, ' ', i);
    assert(text.subrange(0, i) =~= kind);
    assert(text.subrange(i + 1, text.len() as int) =~= token);
}

/// Retrieving the stream `blob <len> NUL payload` gives the payload back
/// unchanged.
pub proof fn law_round_trip(payload: Seq<u8>)
    requires
        payload.len() <= usize::MAX,
    ensures
        object_outcome(blob_stream(payload)) == Ok::<Seq<u8>, ErrorView>(payload),
{
    reveal_strlit("blob");
    lemma_decimal(payload.len());
    lemma_framed_outcome(blob_name(), decimal(payload.len()), payload);
}

/// A payload shorter than the size its well-formed header declares is
/// always reported as truncated.
pub proof fn law_truncated_payload(kind: Seq<char>, size: nat, body: Seq<u8>)
    requires
        is_kind_token(kind),
        size <= usize::MAX,
        body.len() < size,
    ensures
        object_outcome(framed(kind, decimal(size), body)) == Err::<Seq<u8>, ErrorView>(
            ErrorView::TruncatedPayload { expected: size, received: body.len() },
        ),
{
    lemma_decimal(size);
    lemma_framed_outcome(kind, decimal(size), body);
}

/// Any byte after a payload of the declared size is reported as trailing
/// data.
pub proof fn law_trailing_data(kind: Seq<char>, payload: Seq<u8>, extra: Seq<u8>)
    requires
        is_kind_token(kind),
        payload.len() <= usize::MAX,
        extra.len() > 0,
    ensures
        object_outcome(framed(kind, decimal(payload.len()), payload + extra)) == Err::<
            Seq<u8>,
            ErrorView,
        >(ErrorView::TrailingData { expected: payload.len() }),
{
    lemma_decimal(payload.len());
    lemma_framed_outcome(kind, decimal(payload.len()), payload + extra);
}

/// A stream without any NUL byte has a malformed header.
pub proof fn law_missing_terminator(s: Seq<u8>)
    requires
        !s.contains(0u8),
    ensures
        object_outcome(s) == Err::<Seq<u8>, ErrorView>(
            ErrorView::MalformedHeader(HeaderFault::MissingTerminator),
        ),
{
}

/// Header bytes that are not valid UTF-8 make the header malformed.
pub proof fn law_invalid_encoding(header: Seq<u8>, body: Seq<u8>)
    requires
        !header.contains(0u8),
        !valid_utf8(header),
    ensures
        object_outcome(header + seq![0u8] + body) == Err::<Seq<u8>, ErrorView>(
            ErrorView::MalformedHeader(HeaderFault::InvalidEncoding),
        ),
{
    let s = header + seq![0u8] + body;
    assert(is_first(s, 0u8, header.len() as int));
    lemma_first_pos(s, 0u8, header.len() as int);
    assert(s.subrange(0, header.len() as int) =~= header);
}

proof fn lemma_encode_keeps_space(t: Seq<char>, j: int)
    requires
        0 <= j < t.len(),
        t[j] == ' ',
    ensures
        encode_utf8(t).contains(0x20u8),
    decreases t.len(),
{
    let c = t[0] as u32;
    char_is_scalar(t[0]);
    let a = encode_scalar(c);
    let b = encode_utf8(t.drop_first());
    assert(encode_utf8(t) == a + b);
    if j == 0 {
        assert(c == 32);
        assert((32u32 & 0x7F) as u8 == 0x20u8) by (bit_vector);
        assert((a + b)[0] == 0x20u8);
    } else {
        lemma_encode_keeps_space(t.drop_first(), j - 1);
        let k = choose|k: int| 0 <= k < b.len() && b[k] == 0x20u8;
        assert((a + b)[a.len() + k] == 0x20u8);
    }
}

/// Header bytes without a space are malformed: not UTF-8 at all, or text
/// with no separator between kind and size.
pub proof fn law_header_without_space(header: Seq<u8>, body: Seq<u8>)
    requires
        !header.contains(0u8),
        !header.contains(0x20u8),
    ensures
        object_outcome(header + seq![0u8] + body) == Err::<Seq<u8>, ErrorView>(
            ErrorView::MalformedHeader(
                if valid_utf8(header) {
                    HeaderFault::MissingSeparator
                } else {
                    HeaderFault::InvalidEncoding
                },
            ),
        ),
{
    let s = header + seq![0u8] + body;
    assert(is_first(s, 0u8, header.len() as int));
    lemma_first_pos(s, 0u8, header.len() as int);
    assert(s.subrange(0, header.len() as int) =~= header);
    if valid_utf8(header) {
        let text = decode_utf8(header);
        decode_utf8_encode_utf8(header);
        if text.contains(' ') {
            let j = choose|j: int| 0 <= j < text.len() && text[j] == ' ';
            lemma_encode_keeps_space(text, j);
        }
    }
}

/// A size token that is not a decimal number fitting in `usize` makes the
/// header malformed.
pub proof fn law_invalid_size(kind: Seq<char>, token: Seq<char>, body: Seq<u8>)
    requires
        is_kind_token(kind),
        has_no_nul(token),
        size_value(token) is None,
    ensures
        object_outcome(framed(kind, token, body)) == Err::<Seq<u8>, ErrorView>(
            ErrorView::MalformedHeader(HeaderFault::InvalidSize),
        ),
{
    lemma_framed_outcome(kind, token, body);
}

/// A well-formed object of any kind but `blob` is refused as unsupported,
/// naming its kind.
pub proof fn law_unsupported_kind(kind: Seq<char>, payload: Seq<u8>)
    requires
        is_kind_token(kind),
        kind != blob_name(),
        payload.len() <= usize::MAX,
    ensures
        object_outcome(framed(kind, decimal(payload.len()), payload)) == Err::<Seq<u8>, ErrorView>(
            ErrorView::UnsupportedKind(kind),
        ),
{
    lemma_decimal(payload.len());
    lemma_framed_outcome(kind, decimal(payload.len()), payload);
}

} // verus!
