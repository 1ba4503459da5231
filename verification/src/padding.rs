//! Padding block heights in file names: the second dash-separated field is
//! the height, and it is zero-padded to six digits or stripped of its
//! padding again so that lexicographic and numeric order agree.

use vstd::prelude::*;
use crate::queries::{find_first, find_first_char, field_end};

verus! {

use vstd::string::StrSliceExecFns;
use vstd::string::StringExecFns;

/// `k` zeros.
pub open spec fn zeros(k: int) -> Seq<char> {
    Seq::<char>::new(if k < 0 {
        0
    } else {
        k as nat
    }, |i: int| '0')
}

/// `t` with every dash removed.
pub open spec fn dashless(t: Seq<char>) -> Seq<char>
    decreases t.len(),
{
    if t.len() == 0 {
        Seq::<char>::empty()
    } else if t.last() == '-' {
        dashless(t.drop_last())
    } else {
        dashless(t.drop_last()).push(t.last())
    }
}

/// `t` without its leading zeros.
pub open spec fn trimzeros(t: Seq<char>) -> Seq<char>
    decreases t.len(),
{
    if t.len() > 0 && t[0] == '0' {
        trimzeros(t.drop_first())
    } else {
        t
    }
}

/// What padding a name means. The name splits at its dashes; the second
/// field is padded to six characters with zeros. The reassembly keeps one
/// dash on each side of the padded field and joins every later field
/// without separators; a name without dashes is unchanged.
pub open spec fn spec_pad_height(s: Seq<char>) -> Seq<char> {
    let d1 = find_first(s, '-', 0);
    if d1 < 0 {
        s
    } else {
        let e = field_end(s, '-', d1 + 1);
        let f1 = s.subrange(d1 + 1, e);
        let padded = if f1.len() < 6 {
            zeros(6 - f1.len()) + f1
        } else {
            f1
        };
        let head = s.subrange(0, d1) + "-"@ + padded + "-"@;
        if e == s.len() {
            head
        } else {
            head + dashless(s.subrange(e + 1, s.len() as int))
        }
    }
}

/// What unpadding a name means: the second field loses all leading zeros,
/// and everything else stays as it was.
pub open spec fn spec_unpad_height(s: Seq<char>) -> Seq<char> {
    let d1 = find_first(s, '-', 0);
    if d1 < 0 {
        s
    } else {
        let e = field_end(s, '-', d1 + 1);
        let f1 = s.subrange(d1 + 1, e);
        s.subrange(0, d1) + "-"@ + trimzeros(f1) + s.subrange(e, s.len() as int)
    }
}

/// Pad the height field of a block file name to six digits.
#[verifier::loop_isolation(false)]
pub fn pad_height(name: &str) -> (r: String)
    ensures
        r@ == spec_pad_height(name@),
{
    let n = name.unicode_len();
    let d1 = match find_first_char(name, '-', 0) {
        Some(d) => d,
        None => {
            return name.to_owned();
        }
    };
    let e = match find_first_char(name, '-', d1 + 1) {
        Some(e) => e,
        None => n,
    };
    let mut out: String = name.substring_char(0, d1).to_owned();
    out.append("-");
    let f1len = e - (d1 + 1);
    let mut k: usize = 0;
    let pad: usize = if f1len < 6 {
        6 - f1len
    } else {
        0
    };
    while k < pad
        invariant
            k <= pad,
            out@ == name@.subrange(0, d1 as int) + "-"@ + zeros(k as int),
        decreases pad - k,
    {
        out.append("0");
        proof {
            reveal_strlit("0");
            assert(out@ =~= name@.subrange(0, d1 as int) + "-"@ + zeros(k + 1));
        }
        k = k + 1;
    }
    out.append(name.substring_char(d1 + 1, e));
    out.append("-");
    proof {
        let s = name@;
        let f1 = s.subrange(d1 + 1, field_end(s, '-', d1 + 1));
        let padded = if f1.len() < 6 {
            zeros(6 - f1.len()) + f1
        } else {
            f1
        };
        assert(out@ =~= s.subrange(0, d1 as int) + "-"@ + padded + "-"@);
    }
    if e == n {
        return out;
    }
    let rest = name.substring_char(e + 1, n);
    proof {
        assert(rest@ =~= name@.subrange(e + 1, name@.len() as int));
    }
    let restn = rest.unicode_len();
    let ghost base = out@;
    let mut i: usize = 0;
    while i < restn
        invariant
            i <= restn == rest@.len(),
            out@ == base + dashless(rest@.take(i as int)),
        decreases restn - i,
    {
        if s_char_at(rest, i) != '-' {
            out.append(rest.substring_char(i, i + 1));
        }
        proof {
            let t = rest@.take(i + 1);
            assert(t.drop_last() =~= rest@.take(i as int));
            assert(t.last() == rest@[i as int]);
            assert(rest@.subrange(i as int, i + 1) =~= seq![rest@[i as int]]);
            assert(out@ =~= base + dashless(t));
        }
        i = i + 1;
    }
    proof {
        assert(rest@.take(restn as int) =~= rest@);
    }
    out
}

/// Read one character.
fn s_char_at(s: &str, i: usize) -> (c: char)
    requires
        i < s@.len(),
    ensures
        c == s@[i as int],
{
    s.get_char(i)
}

/// Strip the leading zeros from the height field of a block file name.
#[verifier::loop_isolation(false)]
pub fn unpad_height(name: &str) -> (r: String)
    ensures
        r@ == spec_unpad_height(name@),
{
    let n = name.unicode_len();
    let d1 = match find_first_char(name, '-', 0) {
        Some(d) => d,
        None => {
            return name.to_owned();
        }
    };
    let e = match find_first_char(name, '-', d1 + 1) {
        Some(e) => e,
        None => n,
    };
    let mut out: String = name.substring_char(0, d1).to_owned();
    out.append("-");
    // Skip the leading zeros of the height field.
    let mut z = d1 + 1;
    while z < e && s_char_at(name, z) == '0'
        invariant
            d1 + 1 <= z <= e <= name@.len(),
            trimzeros(name@.subrange(d1 + 1, e as int)) == trimzeros(
                name@.subrange(z as int, e as int),
            ),
        decreases e - z,
    {
        proof {
            let cur = name@.subrange(z as int, e as int);
            assert(cur.drop_first() =~= name@.subrange(z + 1, e as int));
        }
        z = z + 1;
    }
    proof {
        let tail = name@.subrange(z as int, e as int);
        if tail.len() > 0 {
            assert(tail[0] == name@[z as int]);
        }
        assert(trimzeros(tail) == tail);
    }
    out.append(name.substring_char(z, e));
    out.append(name.substring_char(e, n));
    proof {
        let s = name@;
        let f1 = s.subrange(d1 + 1, field_end(s, '-', d1 + 1));
        assert(out@ =~= s.subrange(0, d1 as int) + "-"@ + trimzeros(f1) + s.subrange(
            e as int,
            s.len() as int,
        ));
    }
    out
}

} // verus!
