//! Parsing block files: the height and state hash encoded in a block file's
//! name, and the parent hash stored at a fixed offset in its content.
//!
//! Block file names follow the pattern `<prefix>-<height>-<state_hash>.json`.
//! The height is the last dash-separated field that reads as a decimal number;
//! the state hash is the field after the final dash, which must begin with the
//! network prefix `3N`. The parent hash is stored as text at a fixed byte
//! range of the file content.

use vstd::prelude::*;
use crate::numerals::{spec_parse_u32, parse_u32_range};

verus! {

use vstd::string::StrSliceExecFns;

/// Byte offset of the parent state hash within a block file's content.
pub const PARENT_HASH_OFFSET: usize = 75;

/// Byte length of the parent state hash within a block file's content.
pub const PARENT_HASH_LEN: usize = 52;

/// Position of the last occurrence of `c` in `s` before `hi`, or -1 if there
/// is none.
pub open spec fn find_last(s: Seq<char>, c: char, hi: int) -> int
    decreases hi,
{
    if hi <= 0 {
        -1
    } else if s[hi - 1] == c {
        hi - 1
    } else {
        find_last(s, c, hi - 1)
    }
}

proof fn lemma_find_last_lt(s: Seq<char>, c: char, hi: int)
    ensures
        find_last(s, c, hi) >= 0 ==> find_last(s, c, hi) < hi,
    decreases hi,
{
    if hi > 0 && s[hi - 1] != c {
        lemma_find_last_lt(s, c, hi - 1);
    }
}

proof fn lemma_find_last_bounds(s: Seq<char>, c: char, hi: int)
    requires
        0 <= hi <= s.len(),
    ensures
        -1 <= find_last(s, c, hi) < hi,
        find_last(s, c, hi) >= 0 ==> s[find_last(s, c, hi)] == c,
        forall|j: int| find_last(s, c, hi) < j < hi ==> s[j] != c,
    decreases hi,
{
    if hi > 0 && s[hi - 1] != c {
        lemma_find_last_bounds(s, c, hi - 1);
    }
}

/// Find the last occurrence of `c` among the first `hi` characters of `s`.
fn find_last_char(s: &str, c: char, hi: usize) -> (r: Option<usize>)
    requires
        hi <= s@.len(),
    ensures
        match r {
            Some(d) => find_last(s@, c, hi as int) == d,
            None => find_last(s@, c, hi as int) == -1,
        },
{
    let mut j = hi;
    while j > 0
        invariant
            j <= hi <= s@.len(),
            find_last(s@, c, hi as int) == find_last(s@, c, j as int),
        decreases j,
    {
        if s.get_char(j - 1) == c {
            return Some(j - 1);
        }
        j = j - 1;
    }
    None
}

/// The height encoded in the first `hi` characters of a block file name: the
/// last dash-separated field in that range that reads as a decimal number.
pub open spec fn spec_parse_height_upto(s: Seq<char>, hi: int) -> Option<u32>
    decreases hi,
    via spec_parse_height_upto_dec
{
    let d = find_last(s, '-', hi);
    let field = s.subrange(d + 1, hi);
    match spec_parse_u32(field) {
        Some(v) => Some(v),
        None => if d >= 0 {
            spec_parse_height_upto(s, d)
        } else {
            None
        },
    }
}

#[via_fn]
proof fn spec_parse_height_upto_dec(s: Seq<char>, hi: int) {
    lemma_find_last_lt(s, '-', hi);
}

/// The height encoded in a block file name, if any.
pub open spec fn spec_parse_height(s: Seq<char>) -> Option<u32> {
    spec_parse_height_upto(s, s.len() as int)
}

/// Parse the height from a block file name: of the dash-separated fields, the
/// last one that reads as a decimal number.
pub fn parse_height(name: &str) -> (r: Option<u32>)
    ensures
        r == spec_parse_height(name@),
{
    let mut hi = name.unicode_len();
    loop
        invariant
            hi <= name@.len(),
            spec_parse_height(name@) == spec_parse_height_upto(name@, hi as int),
        decreases hi,
    {
        let d = find_last_char(name, '-', hi);
        proof {
            lemma_find_last_bounds(name@, '-', hi as int);
        }
        let lo: usize = match d {
            Some(p) => p + 1,
            None => 0,
        };
        let parsed = parse_u32_range(name, lo, hi);
        match parsed {
            Some(v) => {
                return Some(v);
            }
            None => {
                match d {
                    Some(p) => {
                        hi = p;
                    }
                    None => {
                        return None;
                    }
                }
            }
        }
    }
}

/// The state hash encoded in a block file name: the field after the final
/// dash, which must not land on the extension, must begin with `3N`, and
/// after stripping the extension must contain no further period.
pub open spec fn spec_parse_state_hash(s: Seq<char>) -> Option<Seq<char>> {
    let d = find_last(s, '-', s.len() as int);
    let f = s.subrange(d + 1, s.len() as int);
    if f.len() == 0 {
        None
    } else if f[0] == '.' {
        None
    } else if !(f.len() >= 2 && f[0] == '3' && f[1] == 'N') {
        None
    } else {
        let dot = find_last(f, '.', f.len() as int);
        if dot >= 0 {
            let rem = f.subrange(0, dot);
            if exists|i: int| 0 <= i < rem.len() && rem[i] == '.' {
                None
            } else {
                Some(rem)
            }
        } else {
            Some(f)
        }
    }
}

/// Parse the state hash from a block file name.
#[verifier::loop_isolation(false)]
pub fn parse_state_hash(name: &str) -> (r: Option<String>)
    ensures
        r is Some <==> spec_parse_state_hash(name@) is Some,
        r is Some ==> r.unwrap()@ == spec_parse_state_hash(name@).unwrap(),
{
    let n = name.unicode_len();
    let d = find_last_char(name, '-', n);
    proof {
        lemma_find_last_bounds(name@, '-', n as int);
    }
    let lo: usize = match d {
        Some(p) => p + 1,
        None => 0,
    };
    let f = name.substring_char(lo, n);
    let flen = n - lo;
    proof {
        assert(f@ =~= name@.subrange(lo as int, n as int));
    }
    if flen == 0 {
        return None;
    }
    if f.get_char(0) == '.' {
        return None;
    }
    if !(flen >= 2 && f.get_char(0) == '3' && f.get_char(1) == 'N') {
        return None;
    }
    let dot = find_last_char(f, '.', flen);
    proof {
        lemma_find_last_bounds(f@, '.', flen as int);
    }
    match dot {
        None => Some(f.to_owned()),
        Some(p) => {
            let mut i: usize = 0;
            while i < p
                invariant
                    i <= p,
                    forall|j: int| 0 <= j < i ==> f@.subrange(0, p as int)[j] != '.',
                decreases p - i,
            {
                if f.get_char(i) == '.' {
                    proof {
                        assert(f@.subrange(0, p as int)[i as int] == '.');
                    }
                    return None;
                }
                i = i + 1;
            }
            Some(f.substring_char(0, p).to_owned())
        }
    }
}

/// A byte that decodes as plain text: the ASCII range.
pub open spec fn is_text_byte(b: u8) -> bool {
    b < 128
}

/// Why a parent hash could not be extracted from a block file's content.
#[derive(Clone, Copy, Debug, PartialEq, Eq, Structural)]
pub enum ParentHashError {
    /// The content is shorter than the fixed byte range that holds the hash.
    Io,
    /// The bytes in the fixed range are not valid text.
    Decode,
}

/// Relies on `String::from_utf8`: ASCII bytes decode to exactly those
/// characters, and ASCII is always valid UTF-8, so the conversion succeeds.
#[verifier::external_body]
fn ascii_to_string(bytes: &[u8]) -> (r: String)
    requires
        forall|i: int| 0 <= i < bytes@.len() ==> is_text_byte(bytes@[i]),
    ensures
        r@.len() == bytes@.len(),
        forall|i: int| 0 <= i < bytes@.len() ==> r@[i] as int == bytes@[i] as int,
{
    String::from_utf8(bytes.to_vec()).unwrap()
}

/// Extract the parent state hash from a block file's content: the text at
/// byte offset 75, length 52. Succeeds exactly when the content reaches 127
/// bytes and the window holds only text; a short content fails with `Io`,
/// and a non-text byte in the window fails with `Decode`.
pub fn extract_parent_hash(content: &[u8]) -> (r: Result<String, ParentHashError>)
    ensures
        content@.len() >= PARENT_HASH_OFFSET + PARENT_HASH_LEN && (forall|i: int|
            PARENT_HASH_OFFSET <= i < PARENT_HASH_OFFSET + PARENT_HASH_LEN ==> is_text_byte(
                content@[i],
            )) ==> r is Ok,
        content@.len() < PARENT_HASH_OFFSET + PARENT_HASH_LEN ==> r == Err::<String,
            ParentHashError,
        >(ParentHashError::Io),
        content@.len() >= PARENT_HASH_OFFSET + PARENT_HASH_LEN && !(forall|i: int|
            PARENT_HASH_OFFSET <= i < PARENT_HASH_OFFSET + PARENT_HASH_LEN ==> is_text_byte(
                content@[i],
            )) ==> r == Err::<String, ParentHashError>(ParentHashError::Decode),
        r is Ok ==> {
            &&& content@.len() >= PARENT_HASH_OFFSET + PARENT_HASH_LEN
            &&& r.unwrap()@.len() == PARENT_HASH_LEN
            &&& forall|i: int|
                0 <= i < PARENT_HASH_LEN ==> r.unwrap()@[i] as int == content@[PARENT_HASH_OFFSET
                    + i] as int
        },
{
    if content.len() < PARENT_HASH_OFFSET + PARENT_HASH_LEN {
        return Err(ParentHashError::Io);
    }
    let mut i: usize = PARENT_HASH_OFFSET;
    while i < PARENT_HASH_OFFSET + PARENT_HASH_LEN
        invariant
            PARENT_HASH_OFFSET <= i <= PARENT_HASH_OFFSET + PARENT_HASH_LEN <= content@.len(),
            forall|j: int| PARENT_HASH_OFFSET <= j < i ==> is_text_byte(content@[j]),
        decreases PARENT_HASH_OFFSET + PARENT_HASH_LEN - i,
    {
        if content[i] >= 128 {
            return Err(ParentHashError::Decode);
        }
        i = i + 1;
    }
    let window: &[u8] = &content[PARENT_HASH_OFFSET..PARENT_HASH_OFFSET + PARENT_HASH_LEN];
    proof {
        assert(window@ =~= content@.subrange(
            PARENT_HASH_OFFSET as int,
            PARENT_HASH_OFFSET + PARENT_HASH_LEN,
        ));
    }
    Ok(ascii_to_string(window))
}

} // verus!
