//! The object header: `kind SP size`, decoded as UTF-8.

use vstd::prelude::*;
use vstd::string::*;
use vstd::utf8::*;

use crate::error::HeaderFault;

verus! {

/// A parsed header: the object's kind and its declared payload size.
pub struct Header {
    pub kind: String,
    pub size: usize,
}

/// `i` is the position of the first `x` in `s`.
pub open spec fn is_first<A>(s: Seq<A>, x: A, i: int) -> bool {
    &&& 0 <= i < s.len()
    &&& s[i] == x
    &&& forall|j: int| 0 <= j < i ==> s[j] != x
}

/// Position of the first `x` in `s`; meaningful where `s` contains `x`.
pub open spec fn first_pos<A>(s: Seq<A>, x: A) -> int {
    choose|i: int| is_first(s, x, i)
}

pub proof fn lemma_first_pos<A>(s: Seq<A>, x: A, i: int)
    requires
        is_first(s, x, i),
    ensures
        first_pos(s, x) == i,
{
    let k = first_pos(s, x);
    assert(is_first(s, x, k));
    if k < i {
        assert(s[k] != x);
    } else if i < k {
        assert(s[i] != x);
    }
}

pub open spec fn is_digit(c: char) -> bool {
    '0' <= c && c <= '9'
}

/// The number that a string of decimal digits denotes.
pub open spec fn digits_value(t: Seq<char>) -> nat
    decreases t.len(),
{
    if t.len() == 0 {
        0
    } else {
        digits_value(t.drop_last()) * 10 + (t.last() as nat - '0' as nat) as nat
    }
}

/// The size that a size token declares: one or more decimal digits, and
/// nothing else, whose value fits in `usize`.
pub open spec fn size_value(t: Seq<char>) -> Option<nat> {
    if t.len() > 0 && (forall|i: int| 0 <= i < t.len() ==> is_digit(#[trigger] t[i]))
        && digits_value(t) <= usize::MAX {
        Some(digits_value(t))
    } else {
        None
    }
}

/// What a header's text gives: the kind before the first space, and the size
/// after it.
pub open spec fn header_text_outcome(text: Seq<char>) -> Result<(Seq<char>, nat), HeaderFault> {
    if !text.contains(' ') {
        Err(HeaderFault::MissingSeparator)
    } else {
        let i = first_pos(text, ' ');
        match size_value(text.subrange(i + 1, text.len() as int)) {
            Some(n) => Ok((text.subrange(0, i), n)),
            None => Err(HeaderFault::InvalidSize),
        }
    }
}

/// What the header's bytes (those before the NUL) give.
pub open spec fn header_outcome(bytes: Seq<u8>) -> Result<(Seq<char>, nat), HeaderFault> {
    if !valid_utf8(bytes) {
        Err(HeaderFault::InvalidEncoding)
    } else {
        header_text_outcome(decode_utf8(bytes))
    }
}

pub open spec fn header_view(r: Result<Header, HeaderFault>) -> Result<(Seq<char>, nat), HeaderFault> {
    match r {
        Ok(h) => Ok((h.kind@, h.size as nat)),
        Err(f) => Err(f),
    }
}

proof fn lemma_digits_value_grows(t: Seq<char>, k: int)
    requires
        0 <= k <= t.len(),
        forall|i: int| 0 <= i < t.len() ==> is_digit(#[trigger] t[i]),
    ensures
        digits_value(t.subrange(0, k)) <= digits_value(t),
    decreases t.len(),
{
    if k < t.len() {
        let u = t.drop_last();
        assert(u.subrange(0, k) =~= t.subrange(0, k));
        lemma_digits_value_grows(u, k);
    } else {
        assert(t.subrange(0, k) =~= t);
    }
}

/// Reads a size token: decimal digits only, and a value that fits in `usize`.
pub fn parse_size(token: &str) -> (r: Option<usize>)
    ensures
        match r {
            Some(n) => size_value(token@) == Some(n as nat),
            None => size_value(token@) is None,
        },
{
    let len = token.unicode_len();
    if len == 0 {
        return None;
    }
    let mut value: usize = 0;
    let mut i: usize = 0;
    while i < len
        invariant
            len == token@.len(),
            i <= len,
            forall|j: int| 0 <= j < i ==> is_digit(#[trigger] token@[j]),
            value as nat == digits_value(token@.subrange(0, i as int)),
        decreases len - i,
    {
        let c = token.get_char(i);
        if !('0' <= c && c <= '9') {
            return None;
        }
        let d = (c as u32 - '0' as u32) as usize;
        let ghost next = token@.subrange(0, i + 1);
        assert(next.drop_last() =~= token@.subrange(0, i as int));
        if value > (usize::MAX - d) / 10 {
            proof {
                assert(digits_value(next) > usize::MAX) by (nonlinear_arith)
                    requires
                        digits_value(next) == value * 10 + d,
                        value > (usize::MAX - d) / 10,
                        d <= 9,
                ;
                if forall|j: int| 0 <= j < len ==> is_digit(#[trigger] token@[j]) {
                    lemma_digits_value_grows(token@, i + 1);
                }
            }
            return None;
        }
        value = value * 10 + d;
        i = i + 1;
    }
    proof {
        assert(token@.subrange(0, len as int) =~= token@);
    }
    Some(value)
}

/// Splits a header's text at its first space into kind and size.
pub fn parse_header_text(text: &str) -> (r: Result<Header, HeaderFault>)
    ensures
        header_view(r) == header_text_outcome(text@),
{
    let len = text.unicode_len();
    let mut i: usize = 0;
    while i < len
        invariant
            len == text@.len(),
            i <= len,
            forall|j: int| 0 <= j < i ==> text@[j] != ' ',
        ensures
            i <= len,
            i < len ==> text@[i as int] == ' ',
            forall|j: int| 0 <= j < i ==> text@[j] != ' ',
        decreases len - i,
    {
        if text.get_char(i) == ' ' {
            break;
        }
        i = i + 1;
    }
    if i == len {
        return Err(HeaderFault::MissingSeparator);
    }
    proof {
        assert(is_first(text@, ' ', i as int));
        lemma_first_pos(text@, ' ', i as int);
    }
    let kind = text.substring_char(0, i);
    let token = text.substring_char(i + 1, len);
    match parse_size(token) {
        Some(size) => Ok(Header { kind: String::from_str(kind), size }),
        None => Err(HeaderFault::InvalidSize),
    }
}

/// Relies on `std::str::from_utf8`: the text that the bytes encode, exactly
/// when they are valid UTF-8.
#[verifier::external_body]
fn utf8_text(bytes: &[u8]) -> (r: Option<&str>)
    ensures
        r is Some <==> valid_utf8(bytes@),
        r matches Some(t) ==> t@ == decode_utf8(bytes@),
{
    std::str::from_utf8(bytes).ok()
}

/// Parses the bytes of a header, those before its NUL: they must be UTF-8
/// text of the form `kind SP size`.
pub fn parse_header(bytes: &[u8]) -> (r: Result<Header, HeaderFault>)
    ensures
        header_view(r) == header_outcome(bytes@),
{
    match utf8_text(bytes) {
        Some(text) => parse_header_text(text),
        None => Err(HeaderFault::InvalidEncoding),
    }
}

} // verus!
