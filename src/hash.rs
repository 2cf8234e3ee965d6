//! Object identifiers: syntax check and resolution to a storage path.

use vstd::prelude::*;
use vstd::string::*;

verus! {

/// Fewest characters an identifier may have (an abbreviated hash).
pub const MIN_HASH_LENGTH: usize = 4;

/// Most characters an identifier may have (a full SHA-1 hash).
pub const MAX_HASH_LENGTH: usize = 40;

/// Directory under which the object files live.
pub open spec fn object_root() -> Seq<char> {
    ".rit/objects/"@
}

pub open spec fn is_hex_char(c: char) -> bool {
    ('0' <= c && c <= '9') || ('a' <= c && c <= 'f') || ('A' <= c && c <= 'F')
}

pub open spec fn ascii_lower(c: char) -> char {
    if 'A' <= c && c <= 'Z' {
        ((c as u32) + 32) as char
    } else {
        c
    }
}

pub open spec fn short_message() -> Seq<char> {
    "Hash too short. Minimum length: 4"@
}

pub open spec fn long_message() -> Seq<char> {
    "Hash too long. Maximum length: 40"@
}

pub open spec fn not_hex_message() -> Seq<char> {
    "Hash must contain only hexadecimal characters (0-9, a-f, A-F)"@
}

/// What validating `h` gives: the length is counted in bytes, as `str::len`
/// counts it, and an accepted identifier comes back in lower case.
pub open spec fn hash_validation(h: &str) -> Result<Seq<char>, Seq<char>> {
    if h.spec_bytes().len() < MIN_HASH_LENGTH {
        Err(short_message())
    } else if h.spec_bytes().len() > MAX_HASH_LENGTH {
        Err(long_message())
    } else if !(forall|i: int| 0 <= i < h@.len() ==> is_hex_char(#[trigger] h@[i])) {
        Err(not_hex_message())
    } else {
        Ok(h@.map_values(|c: char| ascii_lower(c)))
    }
}

pub open spec fn string_result_view(r: Result<String, String>) -> Result<Seq<char>, Seq<char>> {
    match r {
        Ok(s) => Ok(s@),
        Err(m) => Err(m@),
    }
}

/// Relies on `str::to_ascii_lowercase`: a copy of the text in which each of
/// 'A'..='Z' becomes its lower-case letter and every other character stays.
#[verifier::external_body]
fn to_ascii_lower(s: &str) -> (r: String)
    ensures
        r@ == s@.map_values(|c: char| ascii_lower(c)),
{
    s.to_ascii_lowercase()
}

/// Checks that `hash` is a hexadecimal identifier of 4 to 40 characters and
/// returns it in lower case, or a message that says what is wrong with it.
pub fn hash_length_validation(hash: &str) -> (r: Result<String, String>)
    ensures
        string_result_view(r) == hash_validation(hash),
{
    let n = hash.as_bytes().len();
    if n < MIN_HASH_LENGTH {
        return Err(String::from_str("Hash too short. Minimum length: 4"));
    }
    if n > MAX_HASH_LENGTH {
        return Err(String::from_str("Hash too long. Maximum length: 40"));
    }
    let len = hash.unicode_len();
    let mut i: usize = 0;
    while i < len
        invariant
            len == hash@.len(),
            MIN_HASH_LENGTH <= hash.spec_bytes().len() <= MAX_HASH_LENGTH,
            i <= len,
            forall|j: int| 0 <= j < i ==> is_hex_char(#[trigger] hash@[j]),
        decreases len - i,
    {
        let c = hash.get_char(i);
        if !(('0' <= c && c <= '9') || ('a' <= c && c <= 'f') || ('A' <= c && c <= 'F')) {
            assert(!is_hex_char(hash@[i as int]));
            return Err(String::from_str(
                "Hash must contain only hexadecimal characters (0-9, a-f, A-F)",
            ));
        }
        i = i + 1;
    }
    Ok(to_ascii_lower(hash))
}

/// The two path segments of an identifier: its first two characters, which
/// name a directory, and the rest, which names the file in it.
pub fn object_path_segments(hash: &str) -> (r: (String, String))
    requires
        hash@.len() >= 2,
    ensures
        r.0@ == hash@.subrange(0, 2),
        r.1@ == hash@.subrange(2, hash@.len() as int),
        r.0@ + r.1@ == hash@,
{
    let len = hash.unicode_len();
    let dir = hash.substring_char(0, 2);
    let file = hash.substring_char(2, len);
    proof {
        assert(dir@ + file@ =~= hash@);
    }
    (String::from_str(dir), String::from_str(file))
}

/// The storage path of the object named `hash`:
/// `.rit/objects/<first two characters>/<the rest>`.
pub fn object_path(hash: &str) -> (r: String)
    requires
        hash@.len() >= 2,
    ensures
        r@ == object_root() + hash@.subrange(0, 2) + "/"@ + hash@.subrange(2, hash@.len() as int),
{
    let (dir, file) = object_path_segments(hash);
    let mut path = String::from_str(".rit/objects/");
    path.append(dir.as_str());
    path.append("/");
    path.append(file.as_str());
    path
}

} // verus!
