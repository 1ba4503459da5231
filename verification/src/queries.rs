//! Bucket query lines: parsing and rendering the `gs://` URIs under which
//! block files are listed and fetched.

use vstd::prelude::*;
use crate::numerals::{spec_parse_u32, parse_u32_range, dec_digits, render_u32};

verus! {

use vstd::string::StrSliceExecFns;
use vstd::string::StringExecFns;

/// Position of the first occurrence of `c` in `s` at or after `from`, or -1.
pub open spec fn find_first(s: Seq<char>, c: char, from: int) -> int
    decreases s.len() - from,
{
    if from < 0 || from >= s.len() {
        -1
    } else if s[from] == c {
        from
    } else {
        find_first(s, c, from + 1)
    }
}

proof fn lemma_find_first_bounds(s: Seq<char>, c: char, from: int)
    requires
        0 <= from,
    ensures
        find_first(s, c, from) == -1 || from <= find_first(s, c, from) < s.len(),
        find_first(s, c, from) >= 0 ==> s[find_first(s, c, from)] == c,
        forall|j: int| from <= j < find_first(s, c, from) ==> s[j] != c,
        find_first(s, c, from) == -1 ==> forall|j: int| from <= j < s.len() ==> s[j] != c,
    decreases s.len() - from,
{
    if from < s.len() && s[from] != c {
        lemma_find_first_bounds(s, c, from + 1);
    }
}

/// Find the first occurrence of `c` in `s` at or after `from`.
pub(crate) fn find_first_char(s: &str, c: char, from: usize) -> (r: Option<usize>)
    requires
        from <= s@.len(),
    ensures
        match r {
            Some(d) => find_first(s@, c, from as int) == d && from <= d < s@.len(),
            None => find_first(s@, c, from as int) == -1,
        },
{
    proof {
        lemma_find_first_bounds(s@, c, from as int);
    }
    let n = s.unicode_len();
    let mut j = from;
    while j < n
        invariant
            from <= j <= n == s@.len(),
            find_first(s@, c, from as int) == find_first(s@, c, j as int),
        decreases n - j,
    {
        if s.get_char(j) == c {
            return Some(j);
        }
        j = j + 1;
    }
    None
}

/// `s` begins with `p`.
pub open spec fn starts_with(s: Seq<char>, p: Seq<char>) -> bool {
    s.len() >= p.len() && s.subrange(0, p.len() as int) == p
}

/// Check a prefix by comparing the leading characters.
fn check_prefix(s: &str, p: &str) -> (r: bool)
    ensures
        r == starts_with(s@, p@),
{
    let n = s.unicode_len();
    let pn = p.unicode_len();
    if n < pn {
        return false;
    }
    let head: String = s.substring_char(0, pn).to_owned();
    let pref: String = p.to_owned();
    proof {
        assert(head@ == s@.subrange(0, p@.len() as int));
    }
    head == pref
}

/// The field of `s` that starts at `from` and runs to the next `c`, or to
/// the end: its end position.
pub open spec fn field_end(s: Seq<char>, c: char, from: int) -> int {
    if find_first(s, c, from) < 0 {
        s.len() as int
    } else {
        find_first(s, c, from)
    }
}

/// What a general block query line means: the shape is
/// `gs://<bucket>/<network>-<length>-<state_hash>.json`; the state hash is
/// cut at its first period, and the line after the second `/` is ignored.
pub open spec fn spec_parse_query(s: Seq<char>) -> Option<
    (Seq<char>, Seq<char>, u32, Seq<char>),
> {
    if !starts_with(s, "gs://"@) {
        None
    } else {
        let rest = s.subrange("gs://"@.len() as int, s.len() as int);
        let slash = find_first(rest, '/', 0);
        if slash < 0 {
            None
        } else {
            let bucket = rest.subrange(0, slash);
            let seg = rest.subrange(slash + 1, field_end(rest, '/', slash + 1));
            let d1 = find_first(seg, '-', 0);
            if d1 < 0 {
                None
            } else {
                let network = seg.subrange(0, d1);
                let lenfield = seg.subrange(d1 + 1, field_end(seg, '-', d1 + 1));
                match spec_parse_u32(lenfield) {
                    None => None,
                    Some(length) => {
                        let d2 = find_first(seg, '-', d1 + 1);
                        if d2 < 0 {
                            None
                        } else {
                            let hf = seg.subrange(d2 + 1, field_end(seg, '-', d2 + 1));
                            let hash = hf.subrange(0, field_end(hf, '.', 0));
                            Some((bucket, network, length, hash))
                        }
                    }
                }
            }
        }
    }
}

/// One line of a bucket listing: which bucket and network it names, and the
/// block's length and state hash.
#[derive(Debug, Clone)]
pub struct MinaBlockQuery {
    pub length: u32,
    pub state_hash: String,
    pub bucket: String,
    pub network: String,
}

impl MinaBlockQuery {
    /// Parse a bucket listing line.
    #[verifier::loop_isolation(false)]
    pub fn parse(s: &str) -> (r: Option<MinaBlockQuery>)
        ensures
            match r {
                Some(q) => spec_parse_query(s@) == Some(
                    (q.bucket@, q.network@, q.length, q.state_hash@),
                ),
                None => spec_parse_query(s@) is None,
            },
    {
        if !check_prefix(s, "gs://") {
            return None;
        }
        let n = s.unicode_len();
        let pn = "gs://".unicode_len();
        let rest = s.substring_char(pn, n);
        proof {
            assert(rest@ =~= s@.subrange("gs://"@.len() as int, s@.len() as int));
        }
        let restn = rest.unicode_len();
        let slash = match find_first_char(rest, '/', 0) {
            Some(d) => d,
            None => {
                return None;
            }
        };
        let bucket = rest.substring_char(0, slash).to_owned();
        let segend = match find_first_char(rest, '/', slash + 1) {
            Some(e) => e,
            None => restn,
        };
        let seg = rest.substring_char(slash + 1, segend);
        proof {
            assert(seg@ =~= rest@.subrange(
                slash + 1,
                field_end(rest@, '/', slash + 1),
            ));
        }
        let segn = seg.unicode_len();
        let d1 = match find_first_char(seg, '-', 0) {
            Some(d) => d,
            None => {
                return None;
            }
        };
        let network = seg.substring_char(0, d1).to_owned();
        let lfend = match find_first_char(seg, '-', d1 + 1) {
            Some(e) => e,
            None => segn,
        };
        let length = match parse_u32_range(seg, d1 + 1, lfend) {
            Some(v) => v,
            None => {
                return None;
            }
        };
        let d2 = match find_first_char(seg, '-', d1 + 1) {
            Some(d) => d,
            None => {
                return None;
            }
        };
        let hfend = match find_first_char(seg, '-', d2 + 1) {
            Some(e) => e,
            None => segn,
        };
        let hf = seg.substring_char(d2 + 1, hfend);
        proof {
            assert(hf@ =~= seg@.subrange(d2 + 1, field_end(seg@, '-', d2 + 1)));
        }
        let hfn = hf.unicode_len();
        let hend = match find_first_char(hf, '.', 0) {
            Some(e) => e,
            None => hfn,
        };
        let state_hash = hf.substring_char(0, hend).to_owned();
        proof {
            assert(state_hash@ =~= hf@.subrange(0, field_end(hf@, '.', 0)));
        }
        Some(MinaBlockQuery { length, state_hash, bucket, network })
    }

    /// Render the query line back out.
    pub fn to_string(&self) -> (r: String)
        ensures
            r@ == "gs://"@ + self.bucket@ + "/"@ + self.network@ + "-"@ + dec_digits(
                self.length as int,
            ) + "-"@ + self.state_hash@ + ".json"@,
    {
        let mut out: String = "gs://".to_owned();
        out.append(self.bucket.as_str());
        out.append("/");
        out.append(self.network.as_str());
        out.append("-");
        let num = render_u32(self.length);
        out.append(num.as_str());
        out.append("-");
        out.append(self.state_hash.as_str());
        out.append(".json");
        out
    }
}

/// What a mainnet listing line means: the fixed bucket and network prefix,
/// then the block's length and its state hash cut at the first period.
pub open spec fn spec_parse_mainnet_query(s: Seq<char>) -> Option<(u32, Seq<char>)> {
    if !starts_with(s, "gs://mina_network_block_data/mainnet-"@) {
        None
    } else {
        let rest = s.subrange(
            "gs://mina_network_block_data/mainnet-"@.len() as int,
            s.len() as int,
        );
        let lenfield = rest.subrange(0, field_end(rest, '-', 0));
        match spec_parse_u32(lenfield) {
            None => None,
            Some(length) => {
                let d = find_first(rest, '-', 0);
                if d < 0 {
                    None
                } else {
                    let hf = rest.subrange(d + 1, field_end(rest, '-', d + 1));
                    let hash = hf.subrange(0, field_end(hf, '.', 0));
                    Some((length, hash))
                }
            }
        }
    }
}

/// One line of the fixed mainnet bucket's listing.
#[derive(Debug, Clone)]
pub struct MinaMainnetBlockQuery {
    pub length: u32,
    pub state_hash: String,
}

impl MinaMainnetBlockQuery {
    /// Parse a mainnet bucket listing line.
    #[verifier::loop_isolation(false)]
    pub fn parse(s: &str) -> (r: Option<MinaMainnetBlockQuery>)
        ensures
            match r {
                Some(q) => spec_parse_mainnet_query(s@) == Some((q.length, q.state_hash@)),
                None => spec_parse_mainnet_query(s@) is None,
            },
    {
        if !check_prefix(s, "gs://mina_network_block_data/mainnet-") {
            return None;
        }
        let n = s.unicode_len();
        let pn = "gs://mina_network_block_data/mainnet-".unicode_len();
        let rest = s.substring_char(pn, n);
        proof {
            assert(rest@ =~= s@.subrange(
                "gs://mina_network_block_data/mainnet-"@.len() as int,
                s@.len() as int,
            ));
        }
        let restn = rest.unicode_len();
        let lfend = match find_first_char(rest, '-', 0) {
            Some(e) => e,
            None => restn,
        };
        let length = match parse_u32_range(rest, 0, lfend) {
            Some(v) => v,
            None => {
                return None;
            }
        };
        let d = match find_first_char(rest, '-', 0) {
            Some(d) => d,
            None => {
                return None;
            }
        };
        let hfend = match find_first_char(rest, '-', d + 1) {
            Some(e) => e,
            None => restn,
        };
        let hf = rest.substring_char(d + 1, hfend);
        proof {
            assert(hf@ =~= rest@.subrange(d + 1, field_end(rest@, '-', d + 1)));
        }
        let hfn = hf.unicode_len();
        let hend = match find_first_char(hf, '.', 0) {
            Some(e) => e,
            None => hfn,
        };
        let state_hash = hf.substring_char(0, hend).to_owned();
        proof {
            assert(state_hash@ =~= hf@.subrange(0, field_end(hf@, '.', 0)));
        }
        Some(MinaMainnetBlockQuery { length, state_hash })
    }

    /// Render the mainnet query line back out.
    pub fn to_string(&self) -> (r: String)
        ensures
            r@ == "gs://mina_network_block_data/mainnet-"@ + dec_digits(self.length as int) + "-"@
                + self.state_hash@ + ".json"@,
    {
        let mut out: String = "gs://mina_network_block_data/mainnet-".to_owned();
        let num = render_u32(self.length);
        out.append(num.as_str());
        out.append("-");
        out.append(self.state_hash.as_str());
        out.append(".json");
        out
    }
}

/// What a mainnet block file name means: the `mainnet-` prefix, then the
/// block's length.
pub open spec fn spec_parse_mainnet_block(s: Seq<char>) -> Option<u32> {
    if !starts_with(s, "mainnet-"@) {
        None
    } else {
        let rest = s.subrange("mainnet-"@.len() as int, s.len() as int);
        spec_parse_u32(rest.subrange(0, field_end(rest, '-', 0)))
    }
}

/// A mainnet block file known only by its length.
#[derive(Debug, Clone, Copy, PartialEq, Eq, Structural)]
pub struct MinaMainnetBlock {
    pub length: u32,
}

impl MinaMainnetBlock {
    /// Parse the length out of a mainnet block file name.
    #[verifier::loop_isolation(false)]
    pub fn parse(s: &str) -> (r: Option<MinaMainnetBlock>)
        ensures
            match r {
                Some(b) => spec_parse_mainnet_block(s@) == Some(b.length),
                None => spec_parse_mainnet_block(s@) is None,
            },
    {
        if !check_prefix(s, "mainnet-") {
            return None;
        }
        let n = s.unicode_len();
        let pn = "mainnet-".unicode_len();
        let rest = s.substring_char(pn, n);
        proof {
            assert(rest@ =~= s@.subrange("mainnet-"@.len() as int, s@.len() as int));
        }
        let restn = rest.unicode_len();
        let lfend = match find_first_char(rest, '-', 0) {
            Some(e) => e,
            None => restn,
        };
        match parse_u32_range(rest, 0, lfend) {
            Some(v) => Some(MinaMainnetBlock { length: v }),
            None => None,
        }
    }
}

/// Render the wildcard query line that fetches every mainnet block of one
/// length.
pub fn mainnet_wildcard_query(height: u32) -> (r: String)
    ensures
        r@ == "gs://mina_network_block_data/mainnet-"@ + dec_digits(height as int) + "-*.json"@,
{
    let mut out: String = "gs://mina_network_block_data/mainnet-".to_owned();
    let num = render_u32(height);
    out.append(num.as_str());
    out.append("-*.json");
    out
}

/// Render the query lines for `num` contiguous block lengths starting at
/// `start`.
pub fn contiguous_query_lines(start: u32, num: u32) -> (r: Vec<String>)
    requires
        start + num <= u32::MAX,
    ensures
        r@.len() == num,
        forall|k: int|
            0 <= k < num ==> (#[trigger] r@[k])@ == "gs://mina_network_block_data/mainnet-"@
                + dec_digits(start + k) + "-*.json"@,
{
    let mut lines: Vec<String> = Vec::new();
    let mut h: u32 = 0;
    while h < num
        invariant
            h <= num,
            start + num <= u32::MAX,
            lines@.len() == h,
            forall|k: int|
                0 <= k < h ==> (#[trigger] lines@[k])@ == "gs://mina_network_block_data/mainnet-"@
                    + dec_digits(start + k) + "-*.json"@,
        decreases num - h,
    {
        lines.push(mainnet_wildcard_query(start + h));
        h = h + 1;
    }
    lines
}

/// The first block length a new-blocks download queries: with `--strict`,
/// just above the known maximum; with an explicit start, that start; and
/// otherwise one buffer below the maximum, but never below length two.
pub fn query_start(strict: bool, start: Option<u32>, buffer: u32, our_max: u32) -> (r: u32)
    requires
        !(strict && start is Some),
        our_max < u32::MAX,
    ensures
        strict ==> r == if our_max + 1 > 2 {
            our_max + 1
        } else {
            2
        },
        !strict && start is Some ==> r == start.unwrap(),
        !strict && start is None ==> r == if buffer < our_max {
            if our_max - buffer > 2 {
                (our_max - buffer) as u32
            } else {
                2
            }
        } else {
            2
        },
{
    match (strict, start) {
        (true, None) => {
            let next = our_max + 1;
            if next > 2 {
                next
            } else {
                2
            }
        }
        (false, None) => {
            if buffer < our_max {
                let lowered = our_max - buffer;
                if lowered > 2 {
                    lowered
                } else {
                    2
                }
            } else {
                2
            }
        }
        (false, Some(start_length)) => start_length,
        (true, Some(_)) => 2,
    }
}

} // verus!
