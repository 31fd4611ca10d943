//! The matcher of the color-notation catalog: for each notation, the set of
//! candidate ranges that its shape matches within a text.
//!
//! A notation's shape is an optional literal prefix (`#`, tried first, then
//! `0x`, then the empty prefix) followed by a fixed number of hexadecimal
//! digits.  Candidates are found left to right over the whole text; after a
//! match the scan resumes at the match's end, so one notation's own candidates
//! never overlap each other.

use vstd::prelude::*;

use crate::color::is_hex_digit;

verus! {

/// The catalog of recognized color notations, without their captured data.
/// Declaration order is not what orders matching: `priority_order` is.
#[derive(Clone, Copy, PartialEq, Eq, Structural, Debug)]
pub enum ColorKindDiscriminants {
    /// Six hexadecimal digits, two per channel, e.g. `#ebc17a`.
    Hex6,
    /// Three hexadecimal digits, one per channel, e.g. `#ebc`.
    Hex3,
}

/// How many hexadecimal digits the notation's shape requires.
pub open spec fn digit_count(d: ColorKindDiscriminants) -> int {
    match d {
        ColorKindDiscriminants::Hex6 => 6,
        ColorKindDiscriminants::Hex3 => 3,
    }
}

impl ColorKindDiscriminants {
    /// How many hexadecimal digits the notation's shape requires.
    pub fn digits(self) -> (n: usize)
        ensures
            n as int == digit_count(self),
    {
        match self {
            ColorKindDiscriminants::Hex6 => 6,
            ColorKindDiscriminants::Hex3 => 3,
        }
    }
}

/// One candidate occurrence of a notation's shape: the matched range
/// `[start, end)` and the length of the captured prefix (0, 1 or 2).
pub struct Candidate {
    pub start: int,
    pub plen: int,
    pub end: int,
}

/// Every character in `[from, to)` is a hexadecimal digit.
pub open spec fn all_hex(text: Seq<char>, from: int, to: int) -> bool {
    forall|j: int| from <= j < to ==> is_hex_digit(#[trigger] text[j])
}

/// The candidate the notation's shape produces at position `i`, if any.
/// Prefix alternatives are tried in order `#`, `0x`, empty; the first whose
/// remainder is exactly `digit_count` hexadecimal digits wins.
pub open spec fn match_at(text: Seq<char>, d: ColorKindDiscriminants, i: int) -> Option<Candidate> {
    let n = digit_count(d);
    if i + 1 + n <= text.len() && text[i] == '#' && all_hex(text, i + 1, i + 1 + n) {
        Some(Candidate { start: i, plen: 1, end: i + 1 + n })
    } else if i + 2 + n <= text.len() && text[i] == '0' && text[i + 1] == 'x'
        && all_hex(text, i + 2, i + 2 + n) {
        Some(Candidate { start: i, plen: 2, end: i + 2 + n })
    } else if i + n <= text.len() && all_hex(text, i, i + n) {
        Some(Candidate { start: i, plen: 0, end: i + n })
    } else {
        None
    }
}

/// All candidates of one notation from position `i` to the end of the text,
/// left to right, resuming after each match.
pub open spec fn scan_from(text: Seq<char>, d: ColorKindDiscriminants, i: int) -> Seq<Candidate>
    decreases text.len() - i,
    when 0 <= i
{
    if i >= text.len() {
        Seq::empty()
    } else {
        match match_at(text, d, i) {
            Some(c) => seq![c] + scan_from(text, d, c.end),
            None => scan_from(text, d, i + 1),
        }
    }
}

/// Shape facts about one candidate of `match_at`.
pub open spec fn candidate_wf(text: Seq<char>, d: ColorKindDiscriminants, c: Candidate) -> bool {
    &&& 0 <= c.start
    &&& 0 <= c.plen <= 2
    &&& c.end == c.start + c.plen + digit_count(d)
    &&& c.end <= text.len()
    &&& all_hex(text, c.start + c.plen, c.end)
    &&& (c.plen == 1 ==> text[c.start] == '#')
    &&& (c.plen == 2 ==> text[c.start] == '0' && text[c.start + 1] == 'x')
}

pub proof fn lemma_match_at_wf(text: Seq<char>, d: ColorKindDiscriminants, i: int)
    requires
        0 <= i,
        match_at(text, d, i) is Some,
    ensures
        candidate_wf(text, d, match_at(text, d, i)->Some_0),
        match_at(text, d, i)->Some_0.start == i,
{
}

/// Every candidate of a scan matches at its own start, lies in `[i, len)`,
/// and candidates follow each other without overlap, in order.
pub proof fn lemma_scan_from_wf(text: Seq<char>, d: ColorKindDiscriminants, i: int)
    requires
        0 <= i,
    ensures
        forall|k: int| 0 <= k < scan_from(text, d, i).len() ==> {
            let c = #[trigger] scan_from(text, d, i)[k];
            &&& candidate_wf(text, d, c)
            &&& i <= c.start
            &&& match_at(text, d, c.start) == Some(c)
        },
        forall|j: int, k: int| 0 <= j < k < scan_from(text, d, i).len()
            ==> (#[trigger] scan_from(text, d, i)[j]).end <= (#[trigger] scan_from(text, d, i)[k]).start,
    decreases text.len() - i,
{
    if i >= text.len() {
    } else {
        let s = scan_from(text, d, i);
        match match_at(text, d, i) {
            Some(c) => {
                lemma_match_at_wf(text, d, i);
                lemma_scan_from_wf(text, d, c.end);
                let rest = scan_from(text, d, c.end);
                assert(s == seq![c] + rest);
                assert forall|k: int| 0 <= k < s.len() implies {
                    let ck = #[trigger] s[k];
                    &&& candidate_wf(text, d, ck)
                    &&& i <= ck.start
                    &&& match_at(text, d, ck.start) == Some(ck)
                } by {
                    if k == 0 {
                        assert(s[0] == c);
                    } else {
                        assert(s[k] == rest[k - 1]);
                    }
                }
                assert forall|j: int, k: int| 0 <= j < k < s.len() implies
                    (#[trigger] s[j]).end <= (#[trigger] s[k]).start by {
                    assert(s[k] == rest[k - 1]);
                    if j == 0 {
                        assert(s[0] == c);
                        assert(c.end <= rest[k - 1].start);
                    } else {
                        assert(s[j] == rest[j - 1]);
                    }
                }
            },
            None => {
                lemma_scan_from_wf(text, d, i + 1);
            },
        }
    }
}

pub fn all_hex_exec(s: &str, from: usize, to: usize) -> (b: bool)
    requires
        from <= to <= s@.len(),
    ensures
        b == all_hex(s@, from as int, to as int),
{
    let mut j = from;
    while j < to
        invariant
            from <= j <= to <= s@.len(),
            all_hex(s@, from as int, j as int),
        decreases to - j,
    {
        if !crate::color::is_hex_digit_exec(s.get_char(j)) {
            return false;
        }
        j += 1;
    }
    true
}

/// The matcher at one position, as `match_at` describes it.  Returns the
/// prefix length and the end of the match.
pub fn match_at_exec(s: &str, d: ColorKindDiscriminants, i: usize) -> (r: Option<(usize, usize)>)
    requires
        i < s@.len(),
    ensures
        match r {
            Some(pe) => match_at(s@, d, i as int) == Some(Candidate {
                start: i as int,
                plen: pe.0 as int,
                end: pe.1 as int,
            }),
            None => match_at(s@, d, i as int) is None,
        },
{
    let n = d.digits();
    let len = s.unicode_len();
    if n + 1 <= len - i && s.get_char(i) == '#' && all_hex_exec(s, i + 1, i + 1 + n) {
        Some((1, i + 1 + n))
    } else if n + 2 <= len - i && s.get_char(i) == '0' && s.get_char(i + 1) == 'x'
        && all_hex_exec(s, i + 2, i + 2 + n) {
        Some((2, i + 2 + n))
    } else if n <= len - i && all_hex_exec(s, i, i + n) {
        Some((0, i + n))
    } else {
        None
    }
}

} // verus!
