//! Overlap resolution: which candidate ranges of which notation claim a span
//! of the text.
//!
//! Notations are processed in priority order.  A candidate is skipped when it
//! overlaps a range already claimed by a higher-priority notation, and
//! discarded without claiming its range when its prefix is empty and the
//! notation's prefixless option is off — a discarded candidate never blocks a
//! lower-priority notation.  The surviving candidates of all notations are
//! kept sorted by start offset.

use vstd::prelude::*;

use crate::color::{hex3_channel, hex6_channel, Rgb};
use crate::matcher::{
    candidate_wf, digit_count, match_at, match_at_exec, scan_from, Candidate,
    ColorKindDiscriminants,
};
use crate::parse_options::{prefix_allowed, ParseOptions};

verus! {

/// A claimed span: the range `[start, end)`, the notation that claimed it,
/// the captured prefix, and the decoded color value.
#[verifier::ext_equal]
pub struct SpanV {
    pub start: int,
    pub end: int,
    pub d: ColorKindDiscriminants,
    pub prefix: Seq<char>,
    pub rgb: Rgb,
}

/// Half-open ranges `[s1, e1)` and `[s2, e2)` share at least one position.
/// Ranges that merely touch at a boundary do not overlap.
pub open spec fn ranges_overlap(s1: int, e1: int, s2: int, e2: int) -> bool {
    s1 < e2 && s2 < e1
}

/// The claimed span a candidate decodes to: the prefix captured verbatim, and
/// each channel read from the candidate's digits.
pub open spec fn decode_cand(text: Seq<char>, d: ColorKindDiscriminants, c: Candidate) -> SpanV {
    let ds = c.start + c.plen;
    SpanV {
        start: c.start,
        end: c.end,
        d,
        prefix: text.subrange(c.start, ds),
        rgb: match d {
            ColorKindDiscriminants::Hex6 => Rgb {
                r: hex6_channel(text[ds], text[ds + 1]),
                g: hex6_channel(text[ds + 2], text[ds + 3]),
                b: hex6_channel(text[ds + 4], text[ds + 5]),
            },
            ColorKindDiscriminants::Hex3 => Rgb {
                r: hex3_channel(text[ds]),
                g: hex3_channel(text[ds + 1]),
                b: hex3_channel(text[ds + 2]),
            },
        },
    }
}

/// A candidate survives when its prefix passes the notation's prefixless
/// gate and it overlaps no span claimed by a higher-priority notation.
pub open spec fn survives(c: Candidate, allow_prefixless: bool, blockers: Seq<SpanV>) -> bool {
    &&& (c.plen > 0 || allow_prefixless)
    &&& forall|k: int| 0 <= k < blockers.len()
        ==> !ranges_overlap(c.start, c.end, (#[trigger] blockers[k]).start, blockers[k].end)
}

/// The spans claimed by the surviving candidates, in candidate order.
pub open spec fn claims_of(
    text: Seq<char>,
    d: ColorKindDiscriminants,
    allow_prefixless: bool,
    blockers: Seq<SpanV>,
    cands: Seq<Candidate>,
) -> Seq<SpanV>
    decreases cands.len(),
{
    if cands.len() == 0 {
        Seq::empty()
    } else if survives(cands[0], allow_prefixless, blockers) {
        seq![decode_cand(text, d, cands[0])] + claims_of(
            text,
            d,
            allow_prefixless,
            blockers,
            cands.drop_first(),
        )
    } else {
        claims_of(text, d, allow_prefixless, blockers, cands.drop_first())
    }
}

/// Two sorted span sequences merged into one sorted sequence; on equal starts
/// the first (higher-priority) sequence goes first.
pub open spec fn merge_spans(a: Seq<SpanV>, b: Seq<SpanV>) -> Seq<SpanV>
    decreases a.len() + b.len(),
{
    if a.len() == 0 {
        b
    } else if b.len() == 0 {
        a
    } else if a[0].start <= b[0].start {
        seq![a[0]] + merge_spans(a.drop_first(), b)
    } else {
        seq![b[0]] + merge_spans(a, b.drop_first())
    }
}

/// The fixed priority order of the catalog's notations.
pub open spec fn priority_order_spec() -> Seq<ColorKindDiscriminants> {
    seq![ColorKindDiscriminants::Hex6, ColorKindDiscriminants::Hex3]
}

/// The fixed priority order in which notations claim ranges: a six-digit
/// literal is recognized before a three-digit match could split it up.
pub fn priority_order() -> (order: Vec<ColorKindDiscriminants>)
    ensures
        order@ == priority_order_spec(),
{
    let mut order: Vec<ColorKindDiscriminants> = Vec::new();
    order.push(ColorKindDiscriminants::Hex6);
    order.push(ColorKindDiscriminants::Hex3);
    proof {
        assert(order@ =~= priority_order_spec());
    }
    order
}

/// All spans claimed after processing the given notations in order: each
/// notation's candidates are matched over the whole text, filtered against
/// the spans already claimed by the notations before it, and merged in.
pub open spec fn claims_upto(
    text: Seq<char>,
    opts: ParseOptions,
    order: Seq<ColorKindDiscriminants>,
) -> Seq<SpanV>
    decreases order.len(),
{
    if order.len() == 0 {
        Seq::empty()
    } else {
        let prev = claims_upto(text, opts, order.drop_last());
        let d = order.last();
        merge_spans(
            prev,
            claims_of(text, d, prefix_allowed(d, opts), prev, scan_from(text, d, 0)),
        )
    }
}

/// The final claimed spans of a text under the given options.
pub open spec fn claimed_spans(text: Seq<char>, opts: ParseOptions) -> Seq<SpanV> {
    claims_upto(text, opts, priority_order_spec())
}

/// The span is what decoding a match of its notation at its start yields.
pub open spec fn span_ok(text: Seq<char>, s: SpanV) -> bool {
    let n = digit_count(s.d);
    let c = Candidate { start: s.start, plen: s.end - s.start - n, end: s.end };
    &&& 0 <= s.start
    &&& s.end <= text.len()
    &&& 0 <= c.plen <= 2
    &&& match_at(text, s.d, s.start) == Some(c)
    &&& s == decode_cand(text, s.d, c)
}

pub open spec fn spans_ok(text: Seq<char>, spans: Seq<SpanV>) -> bool {
    forall|k: int| 0 <= k < spans.len() ==> span_ok(text, #[trigger] spans[k])
}

/// Spans stand in order and never overlap: each ends at or before any later
/// one starts.
pub open spec fn spans_sorted_disjoint(spans: Seq<SpanV>) -> bool {
    forall|j: int, k: int| 0 <= j < k < spans.len()
        ==> (#[trigger] spans[j]).end <= (#[trigger] spans[k]).start
}

/// Every span starts at or after `lo` and is nonempty.
pub open spec fn spans_bounded(spans: Seq<SpanV>, lo: int) -> bool {
    forall|k: int| 0 <= k < spans.len()
        ==> lo <= (#[trigger] spans[k]).start < spans[k].end
}

/// No span of `spans` overlaps any span of `others`.
pub open spec fn spans_avoid(spans: Seq<SpanV>, others: Seq<SpanV>) -> bool {
    forall|k: int, m: int| 0 <= k < spans.len() && 0 <= m < others.len()
        ==> !ranges_overlap(
            (#[trigger] spans[k]).start,
            spans[k].end,
            (#[trigger] others[m]).start,
            others[m].end,
        )
}

/// One step of `claims_of` on a candidate sequence split into head and tail.
pub proof fn lemma_claims_of_unfold(
    text: Seq<char>,
    d: ColorKindDiscriminants,
    allow_prefixless: bool,
    blockers: Seq<SpanV>,
    c: Candidate,
    rest: Seq<Candidate>,
)
    ensures
        claims_of(text, d, allow_prefixless, blockers, seq![c] + rest) == (
            if survives(c, allow_prefixless, blockers) {
                seq![decode_cand(text, d, c)] + claims_of(text, d, allow_prefixless, blockers, rest)
            } else {
                claims_of(text, d, allow_prefixless, blockers, rest)
            }
        ),
{
    let s = seq![c] + rest;
    assert(s[0] == c);
    assert(s.drop_first() =~= rest);
}

/// What `claims_of` yields from a well-formed candidate sequence: spans that
/// decode their own match, sorted and disjoint, clear of every blocker.
pub proof fn lemma_claims_of_props(
    text: Seq<char>,
    d: ColorKindDiscriminants,
    allow_prefixless: bool,
    blockers: Seq<SpanV>,
    cands: Seq<Candidate>,
    lo: int,
)
    requires
        forall|k: int| 0 <= k < cands.len() ==> {
            let c = #[trigger] cands[k];
            &&& candidate_wf(text, d, c)
            &&& match_at(text, d, c.start) == Some(c)
            &&& lo <= c.start
        },
        forall|j: int, k: int| 0 <= j < k < cands.len()
            ==> (#[trigger] cands[j]).end <= (#[trigger] cands[k]).start,
    ensures
        ({
            let claims = claims_of(text, d, allow_prefixless, blockers, cands);
            &&& spans_ok(text, claims)
            &&& spans_sorted_disjoint(claims)
            &&& spans_bounded(claims, lo)
            &&& spans_avoid(claims, blockers)
            &&& forall|k: int| 0 <= k < claims.len() ==> (#[trigger] claims[k]).d == d
        }),
    decreases cands.len(),
{
    if cands.len() == 0 {
    } else {
        let c = cands[0];
        let rest = cands.drop_first();
        let claims = claims_of(text, d, allow_prefixless, blockers, cands);
        let claims_rest = claims_of(text, d, allow_prefixless, blockers, rest);
        lemma_claims_of_props(text, d, allow_prefixless, blockers, rest, c.end);
        if survives(c, allow_prefixless, blockers) {
            let s0 = decode_cand(text, d, c);
            assert(claims == seq![s0] + claims_rest);
            assert(span_ok(text, s0)) by {
                assert(Candidate { start: s0.start, plen: s0.end - s0.start - digit_count(d), end: s0.end } == c);
            }
            assert forall|k: int| 0 <= k < claims.len() implies {
                &&& span_ok(text, #[trigger] claims[k])
                &&& lo <= claims[k].start < claims[k].end
                &&& claims[k].d == d
            } by {
                if k > 0 {
                    assert(claims[k] == claims_rest[k - 1]);
                }
            }
            assert forall|j: int, k: int| 0 <= j < k < claims.len() implies
                (#[trigger] claims[j]).end <= (#[trigger] claims[k]).start by {
                assert(claims[k] == claims_rest[k - 1]);
                if j > 0 {
                    assert(claims[j] == claims_rest[j - 1]);
                }
            }
            assert forall|k: int, m: int| 0 <= k < claims.len() && 0 <= m < blockers.len() implies
                !ranges_overlap(
                    (#[trigger] claims[k]).start,
                    claims[k].end,
                    (#[trigger] blockers[m]).start,
                    blockers[m].end,
                ) by {
                if k > 0 {
                    assert(claims[k] == claims_rest[k - 1]);
                }
            }
        } else {
            assert(claims == claims_rest);
            assert(spans_bounded(claims, lo)) by {
                assert(spans_bounded(claims_rest, c.end));
            }
        }
    }
}

/// What merging two sorted, mutually disjoint span sequences yields: a sorted
/// disjoint sequence holding exactly the spans of both.
pub proof fn lemma_merge_props(a: Seq<SpanV>, b: Seq<SpanV>, lo: int)
    requires
        spans_sorted_disjoint(a),
        spans_sorted_disjoint(b),
        spans_bounded(a, lo),
        spans_bounded(b, lo),
        spans_avoid(a, b),
    ensures
        ({
            let m = merge_spans(a, b);
            &&& spans_sorted_disjoint(m)
            &&& spans_bounded(m, lo)
            &&& m.len() == a.len() + b.len()
            &&& forall|k: int| 0 <= k < m.len() ==> a.contains(#[trigger] m[k]) || b.contains(m[k])
        }),
    decreases a.len() + b.len(),
{
    let m = merge_spans(a, b);
    if a.len() == 0 {
        assert(forall|k: int| 0 <= k < m.len() ==> b.contains(#[trigger] m[k]));
    } else if b.len() == 0 {
        assert(forall|k: int| 0 <= k < m.len() ==> a.contains(#[trigger] m[k]));
    } else if a[0].start <= b[0].start {
        let a1 = a.drop_first();
        // a[0] ends before b[0] starts: they do not overlap and a[0] is first.
        assert(a[0].end <= b[0].start) by {
            assert(!ranges_overlap(a[0].start, a[0].end, b[0].start, b[0].end));
        }
        assert(spans_bounded(a1, a[0].end));
        assert(spans_bounded(b, a[0].end));
        assert(spans_avoid(a1, b)) by {
            assert forall|k: int, m2: int| 0 <= k < a1.len() && 0 <= m2 < b.len() implies
                !ranges_overlap(
                    (#[trigger] a1[k]).start,
                    a1[k].end,
                    (#[trigger] b[m2]).start,
                    b[m2].end,
                ) by {
                assert(a1[k] == a[k + 1]);
            }
        }
        lemma_merge_props(a1, b, a[0].end);
        let mrest = merge_spans(a1, b);
        assert(m == seq![a[0]] + mrest);
        assert forall|j: int, k: int| 0 <= j < k < m.len() implies
            (#[trigger] m[j]).end <= (#[trigger] m[k]).start by {
            assert(m[k] == mrest[k - 1]);
            if j > 0 {
                assert(m[j] == mrest[j - 1]);
            }
        }
        assert forall|k: int| 0 <= k < m.len() implies
            lo <= (#[trigger] m[k]).start < m[k].end by {
            if k > 0 {
                assert(m[k] == mrest[k - 1]);
            }
        }
        assert forall|k: int| 0 <= k < m.len() implies
            a.contains(#[trigger] m[k]) || b.contains(m[k]) by {
            if k == 0 {
                assert(a[0] == m[0]);
            } else {
                assert(m[k] == mrest[k - 1]);
                if a1.contains(mrest[k - 1]) {
                    let i = choose|i: int| 0 <= i < a1.len() && a1[i] == mrest[k - 1];
                    assert(a[i + 1] == a1[i]);
                }
            }
        }
    } else {
        let b1 = b.drop_first();
        assert(b[0].end <= a[0].start) by {
            assert(!ranges_overlap(a[0].start, a[0].end, b[0].start, b[0].end));
        }
        assert(spans_bounded(b1, b[0].end));
        assert(spans_bounded(a, b[0].end));
        assert(spans_avoid(a, b1)) by {
            assert forall|k: int, m2: int| 0 <= k < a.len() && 0 <= m2 < b1.len() implies
                !ranges_overlap(
                    (#[trigger] a[k]).start,
                    a[k].end,
                    (#[trigger] b1[m2]).start,
                    b1[m2].end,
                ) by {
                assert(b1[m2] == b[m2 + 1]);
            }
        }
        lemma_merge_props(a, b1, b[0].end);
        let mrest = merge_spans(a, b1);
        assert(m == seq![b[0]] + mrest);
        assert forall|j: int, k: int| 0 <= j < k < m.len() implies
            (#[trigger] m[j]).end <= (#[trigger] m[k]).start by {
            assert(m[k] == mrest[k - 1]);
            if j > 0 {
                assert(m[j] == mrest[j - 1]);
            }
        }
        assert forall|k: int| 0 <= k < m.len() implies
            lo <= (#[trigger] m[k]).start < m[k].end by {
            if k > 0 {
                assert(m[k] == mrest[k - 1]);
            }
        }
        assert forall|k: int| 0 <= k < m.len() implies
            a.contains(#[trigger] m[k]) || b.contains(m[k]) by {
            if k == 0 {
                assert(b[0] == m[0]);
            } else {
                assert(m[k] == mrest[k - 1]);
                if b1.contains(mrest[k - 1]) {
                    let i = choose|i: int| 0 <= i < b1.len() && b1[i] == mrest[k - 1];
                    assert(b[i + 1] == b1[i]);
                }
            }
        }
    }
}

/// The claimed spans of any prefix of the priority order are well formed:
/// each decodes its own match, and together they stand sorted and disjoint.
pub proof fn lemma_claims_upto_props(
    text: Seq<char>,
    opts: ParseOptions,
    order: Seq<ColorKindDiscriminants>,
)
    ensures
        spans_ok(text, claims_upto(text, opts, order)),
        spans_sorted_disjoint(claims_upto(text, opts, order)),
        spans_bounded(claims_upto(text, opts, order), 0),
    decreases order.len(),
{
    if order.len() == 0 {
    } else {
        let prev = claims_upto(text, opts, order.drop_last());
        let d = order.last();
        let cands = scan_from(text, d, 0);
        let newc = claims_of(text, d, prefix_allowed(d, opts), prev, cands);
        lemma_claims_upto_props(text, opts, order.drop_last());
        crate::matcher::lemma_scan_from_wf(text, d, 0);
        lemma_claims_of_props(text, d, prefix_allowed(d, opts), prev, cands, 0);
        lemma_merge_props(prev, newc, 0);
        let m = merge_spans(prev, newc);
        assert forall|k: int| 0 <= k < m.len() implies span_ok(text, #[trigger] m[k]) by {
            if prev.contains(m[k]) {
                let i = choose|i: int| 0 <= i < prev.len() && prev[i] == m[k];
                assert(span_ok(text, prev[i]));
            } else {
                let i = choose|i: int| 0 <= i < newc.len() && newc[i] == m[k];
                assert(span_ok(text, newc[i]));
            }
        }
    }
}

/// The final claimed spans are well formed, sorted and disjoint.
pub proof fn lemma_claimed_spans_props(text: Seq<char>, opts: ParseOptions)
    ensures
        spans_ok(text, claimed_spans(text, opts)),
        spans_sorted_disjoint(claimed_spans(text, opts)),
        spans_bounded(claimed_spans(text, opts), 0),
{
    lemma_claims_upto_props(text, opts, priority_order_spec());
}

/// A claimed range as the tokenizer holds it while scanning.
pub struct ClaimedRange {
    pub start: usize,
    pub end: usize,
    pub d: ColorKindDiscriminants,
    pub prefix: String,
    pub rgb: Rgb,
}

impl View for ClaimedRange {
    type V = SpanV;

    open spec fn view(&self) -> SpanV {
        SpanV {
            start: self.start as int,
            end: self.end as int,
            d: self.d,
            prefix: self.prefix@,
            rgb: self.rgb,
        }
    }
}

pub open spec fn spans_view(s: Seq<ClaimedRange>) -> Seq<SpanV> {
    s.map_values(|cr: ClaimedRange| cr@)
}

/// Whether `[start, end)` overlaps any already claimed range.
fn overlaps_any(start: usize, end: usize, blockers: &Vec<ClaimedRange>) -> (r: bool)
    ensures
        !r <==> (forall|k: int| 0 <= k < spans_view(blockers@).len() ==> !ranges_overlap(
            start as int,
            end as int,
            (#[trigger] spans_view(blockers@)[k]).start,
            spans_view(blockers@)[k].end,
        )),
{
    let mut m: usize = 0;
    while m < blockers.len()
        invariant
            m <= blockers@.len(),
            forall|j: int| 0 <= j < m ==> !ranges_overlap(
                start as int,
                end as int,
                (#[trigger] spans_view(blockers@)[j]).start,
                spans_view(blockers@)[j].end,
            ),
        decreases blockers@.len() - m,
    {
        let bl_start = blockers[m].start;
        let bl_end = blockers[m].end;
        if start < bl_end && bl_start < end {
            proof {
                assert(ranges_overlap(
                    start as int,
                    end as int,
                    spans_view(blockers@)[m as int].start,
                    spans_view(blockers@)[m as int].end,
                ));
            }
            return true;
        }
        m += 1;
    }
    false
}

/// The channel value of two hexadecimal digits at position `j`.
fn hex_pair_exec(s: &str, j: usize) -> (v: u8)
    requires
        j < usize::MAX,
        j + 1 < s@.len(),
        crate::color::is_hex_digit(s@[j as int]),
        crate::color::is_hex_digit(s@[j as int + 1]),
    ensures
        v == hex6_channel(s@[j as int], s@[j as int + 1]),
{
    let hi = crate::color::hex_val_exec(s.get_char(j));
    let lo = crate::color::hex_val_exec(s.get_char(j + 1));
    hi * 16 + lo
}

/// The channel value of one hexadecimal digit at position `j`.
fn hex_single_exec(s: &str, j: usize) -> (v: u8)
    requires
        j < s@.len(),
        crate::color::is_hex_digit(s@[j as int]),
    ensures
        v == hex3_channel(s@[j as int]),
{
    17 * crate::color::hex_val_exec(s.get_char(j))
}

/// Decodes one surviving candidate into its claimed range.
fn decode_candidate(
    s: &str,
    d: ColorKindDiscriminants,
    start: usize,
    plen: usize,
    end: usize,
) -> (cr: ClaimedRange)
    requires
        match_at(s@, d, start as int) == Some(Candidate {
            start: start as int,
            plen: plen as int,
            end: end as int,
        }),
    ensures
        cr@ == decode_cand(s@, d, Candidate {
            start: start as int,
            plen: plen as int,
            end: end as int,
        }),
{
    let ghost c = Candidate { start: start as int, plen: plen as int, end: end as int };
    proof {
        crate::matcher::lemma_match_at_wf(s@, d, start as int);
    }
    let ds = start + plen;
    let prefix = s.substring_char(start, ds).to_owned();
    let rgb = match d {
        ColorKindDiscriminants::Hex6 => Rgb {
            r: hex_pair_exec(s, ds),
            g: hex_pair_exec(s, ds + 2),
            b: hex_pair_exec(s, ds + 4),
        },
        ColorKindDiscriminants::Hex3 => Rgb {
            r: hex_single_exec(s, ds),
            g: hex_single_exec(s, ds + 1),
            b: hex_single_exec(s, ds + 2),
        },
    };
    let cr = ClaimedRange { start, end, d, prefix, rgb };
    proof {
        assert(cr@ =~= decode_cand(s@, d, c));
    }
    cr
}

/// One notation's claimed ranges: its candidates over the whole text, left to
/// right, dropping those that overlap a higher-priority claim and those whose
/// empty prefix the options refuse.
pub fn scan_claims(
    s: &str,
    d: ColorKindDiscriminants,
    allow_prefixless: bool,
    blockers: &Vec<ClaimedRange>,
) -> (out: Vec<ClaimedRange>)
    ensures
        spans_view(out@) == claims_of(
            s@,
            d,
            allow_prefixless,
            spans_view(blockers@),
            scan_from(s@, d, 0),
        ),
{
    let ghost bl = spans_view(blockers@);
    let ghost target = claims_of(s@, d, allow_prefixless, bl, scan_from(s@, d, 0));
    let len = s.unicode_len();
    let mut out: Vec<ClaimedRange> = Vec::new();
    let mut i: usize = 0;
    while i < len
        invariant
            i <= len,
            len as nat == s@.len(),
            bl == spans_view(blockers@),
            target == claims_of(s@, d, allow_prefixless, bl, scan_from(s@, d, 0)),
            spans_view(out@) + claims_of(s@, d, allow_prefixless, bl, scan_from(s@, d, i as int))
                == target,
        decreases len - i,
    {
        let ghost out_pre = out@;
        match match_at_exec(s, d, i) {
            Some((plen, end)) => {
                let ghost c = Candidate { start: i as int, plen: plen as int, end: end as int };
                proof {
                    crate::matcher::lemma_match_at_wf(s@, d, i as int);
                    assert(scan_from(s@, d, i as int) == seq![c] + scan_from(s@, d, end as int));
                    lemma_claims_of_unfold(s@, d, allow_prefixless, bl, c, scan_from(s@, d, end as int));
                }
                let blocked = overlaps_any(i, end, blockers);
                proof {
                    assert(survives(c, allow_prefixless, bl) == ((plen > 0 || allow_prefixless)
                        && !blocked));
                }
                if (plen > 0 || allow_prefixless) && !blocked {
                    let cr = decode_candidate(s, d, i, plen, end);
                    out.push(cr);
                    proof {
                        assert(spans_view(out@) =~= spans_view(out_pre).push(cr@));
                        assert(spans_view(out@)
                            + claims_of(s@, d, allow_prefixless, bl, scan_from(s@, d, end as int))
                            =~= spans_view(out_pre)
                            + claims_of(s@, d, allow_prefixless, bl, scan_from(s@, d, i as int)));
                    }
                }
                i = end;
            },
            None => {
                proof {
                    assert(scan_from(s@, d, i as int) == scan_from(s@, d, i as int + 1));
                }
                i += 1;
            },
        }
    }
    proof {
        assert(scan_from(s@, d, i as int) =~= Seq::<Candidate>::empty());
        assert(spans_view(out@) + claims_of(s@, d, allow_prefixless, bl, scan_from(s@, d, i as int))
            =~= spans_view(out@));
    }
    out
}

/// Merges a notation's new claims into the claims of the higher-priority
/// notations, keeping the whole set sorted by start offset.
pub fn merge_claims(a: Vec<ClaimedRange>, b: Vec<ClaimedRange>) -> (out: Vec<ClaimedRange>)
    ensures
        spans_view(out@) == merge_spans(spans_view(a@), spans_view(b@)),
{
    let ghost target = merge_spans(spans_view(a@), spans_view(b@));
    let mut a = a;
    let mut b = b;
    let mut out: Vec<ClaimedRange> = Vec::new();
    while a.len() > 0 && b.len() > 0
        invariant
            spans_view(out@) + merge_spans(spans_view(a@), spans_view(b@)) == target,
        decreases a@.len() + b@.len(),
    {
        let ghost a_pre = a@;
        let ghost b_pre = b@;
        let ghost out_pre = out@;
        if a[0].start <= b[0].start {
            let x = a.remove(0);
            out.push(x);
            proof {
                assert(spans_view(a@) =~= spans_view(a_pre).drop_first());
                assert(spans_view(out@) =~= spans_view(out_pre).push(x@));
                assert(merge_spans(spans_view(a_pre), spans_view(b_pre))
                    == seq![x@] + merge_spans(spans_view(a@), spans_view(b_pre)));
                assert(spans_view(out@) + merge_spans(spans_view(a@), spans_view(b@))
                    =~= spans_view(out_pre) + merge_spans(spans_view(a_pre), spans_view(b_pre)));
            }
        } else {
            let x = b.remove(0);
            out.push(x);
            proof {
                assert(spans_view(b@) =~= spans_view(b_pre).drop_first());
                assert(spans_view(out@) =~= spans_view(out_pre).push(x@));
                assert(merge_spans(spans_view(a_pre), spans_view(b_pre))
                    == seq![x@] + merge_spans(spans_view(a_pre), spans_view(b@)));
                assert(spans_view(out@) + merge_spans(spans_view(a@), spans_view(b@))
                    =~= spans_view(out_pre) + merge_spans(spans_view(a_pre), spans_view(b_pre)));
            }
        }
    }
    while a.len() > 0
        invariant
            spans_view(out@) + merge_spans(spans_view(a@), spans_view(b@)) == target,
            a@.len() > 0 ==> b@.len() == 0,
        decreases a@.len(),
    {
        let ghost a_pre = a@;
        let ghost out_pre = out@;
        let x = a.remove(0);
        out.push(x);
        proof {
            assert(spans_view(a@) =~= spans_view(a_pre).drop_first());
            assert(spans_view(out@) =~= spans_view(out_pre).push(x@));
            assert(merge_spans(spans_view(a_pre), spans_view(b@))
                =~= seq![x@] + merge_spans(spans_view(a@), spans_view(b@)));
            assert(spans_view(out@) + merge_spans(spans_view(a@), spans_view(b@))
                =~= spans_view(out_pre) + merge_spans(spans_view(a_pre), spans_view(b@)));
        }
    }
    while b.len() > 0
        invariant
            spans_view(out@) + merge_spans(spans_view(a@), spans_view(b@)) == target,
            a@.len() == 0,
        decreases b@.len(),
    {
        let ghost b_pre = b@;
        let ghost out_pre = out@;
        let x = b.remove(0);
        out.push(x);
        proof {
            assert(spans_view(b@) =~= spans_view(b_pre).drop_first());
            assert(spans_view(out@) =~= spans_view(out_pre).push(x@));
            assert(merge_spans(spans_view(a@), spans_view(b_pre))
                =~= seq![x@] + merge_spans(spans_view(a@), spans_view(b@)));
            assert(spans_view(out@) + merge_spans(spans_view(a@), spans_view(b@))
                =~= spans_view(out_pre) + merge_spans(spans_view(a@), spans_view(b_pre)));
        }
    }
    proof {
        assert(merge_spans(spans_view(a@), spans_view(b@)) =~= Seq::<SpanV>::empty());
        assert(spans_view(out@) + merge_spans(spans_view(a@), spans_view(b@)) =~= spans_view(out@));
    }
    out
}

} // verus!
