//! Round-trip guarantees of the tokenizer and serializer.
//!
//! Serializing an unedited parse reproduces the source text whenever every
//! claimed color literal is written in the digits the serializer itself
//! emits (decimal digits and lower-case letters).  An upper-case literal
//! such as `#ABCDEF` parses to the same value as its lower-case form and
//! re-renders in lower case, so for those inputs the round trip rewrites
//! case and nothing else.

use vstd::prelude::*;

use crate::color::{
    is_lower_hex_digit, lemma_hex3_channel_roundtrip, lemma_hex6_channel_roundtrip,
};
use crate::color_file::{
    count_color_tokens, emit_tokens, parse_text_tokens, render_color, render_token,
    serialize_tokens, span_kind_view, TokenView,
};
use crate::matcher::{digit_count, Candidate};
use crate::parse_options::ParseOptions;
use crate::spans::{
    claimed_spans, lemma_claimed_spans_props, span_ok, spans_bounded, spans_ok,
    spans_sorted_disjoint, SpanV,
};

verus! {

/// The digits of the claimed span are written as the serializer writes them:
/// decimal or lower-case hexadecimal.
pub open spec fn span_digits_lower(text: Seq<char>, s: SpanV) -> bool {
    forall|j: int| s.end - digit_count(s.d) <= j < s.end ==> is_lower_hex_digit(#[trigger] text[j])
}

/// A claimed span whose digits are lower case re-renders to exactly the text
/// it was matched on.
pub proof fn lemma_span_renders_back(text: Seq<char>, s: SpanV)
    requires
        span_ok(text, s),
        span_digits_lower(text, s),
    ensures
        render_color(span_kind_view(s), s.rgb) == text.subrange(s.start, s.end),
{
    let n = digit_count(s.d);
    let c = Candidate { start: s.start, plen: s.end - s.start - n, end: s.end };
    let ds = c.start + c.plen;
    crate::matcher::lemma_match_at_wf(text, s.d, s.start);
    match s.d {
        crate::matcher::ColorKindDiscriminants::Hex6 => {
            lemma_hex6_channel_roundtrip(text[ds], text[ds + 1]);
            lemma_hex6_channel_roundtrip(text[ds + 2], text[ds + 3]);
            lemma_hex6_channel_roundtrip(text[ds + 4], text[ds + 5]);
            assert(render_color(span_kind_view(s), s.rgb) =~= text.subrange(s.start, s.end));
        },
        crate::matcher::ColorKindDiscriminants::Hex3 => {
            lemma_hex3_channel_roundtrip(text[ds]);
            lemma_hex3_channel_roundtrip(text[ds + 1]);
            lemma_hex3_channel_roundtrip(text[ds + 2]);
            assert(render_color(span_kind_view(s), s.rgb) =~= text.subrange(s.start, s.end));
        },
    }
}

/// One token serializes to its own rendering.
pub proof fn lemma_serialize_singleton(t: TokenView)
    ensures
        serialize_tokens(seq![t]) == render_token(t),
{
    let s = seq![t];
    assert(s[0] == t);
    assert(s.drop_first() =~= Seq::<TokenView>::empty());
    assert(serialize_tokens(s.drop_first()) == Seq::<char>::empty());
    assert(serialize_tokens(s) =~= render_token(t));
}

/// Serialization distributes over concatenation of token sequences.
pub proof fn lemma_serialize_concat(a: Seq<TokenView>, b: Seq<TokenView>)
    ensures
        serialize_tokens(a + b) == serialize_tokens(a) + serialize_tokens(b),
    decreases a.len(),
{
    if a.len() == 0 {
        assert(a + b =~= b);
        assert(serialize_tokens(a) + serialize_tokens(b) =~= serialize_tokens(b));
    } else {
        lemma_serialize_concat(a.drop_first(), b);
        assert((a + b).drop_first() =~= a.drop_first() + b);
        assert((a + b)[0] == a[0]);
        assert(render_token(a[0]) + (serialize_tokens(a.drop_first()) + serialize_tokens(b))
            =~= (render_token(a[0]) + serialize_tokens(a.drop_first())) + serialize_tokens(b));
    }
}

/// Serializing the tokens that sorted, re-rendering spans carve out of
/// `text` from cursor `c` onward reproduces `text` from `c` onward.
proof fn lemma_emit_serialize(text: Seq<char>, spans: Seq<SpanV>, c: int)
    requires
        0 <= c <= text.len(),
        spans_bounded(spans, c),
        spans_sorted_disjoint(spans),
        forall|k: int| 0 <= k < spans.len() ==> (#[trigger] spans[k]).end <= text.len(),
        forall|k: int| 0 <= k < spans.len()
            ==> render_color(span_kind_view(#[trigger] spans[k]), spans[k].rgb)
                == text.subrange(spans[k].start, spans[k].end),
    ensures
        serialize_tokens(emit_tokens(text, spans, c)) == text.subrange(c, text.len() as int),
    decreases spans.len(),
{
    if spans.len() == 0 {
        if c < text.len() {
            let t = TokenView::Text(text.subrange(c, text.len() as int));
            lemma_serialize_singleton(t);
        } else {
            assert(text.subrange(c, text.len() as int) =~= Seq::<char>::empty());
        }
    } else {
        let s0 = spans[0];
        let rest = spans.drop_first();
        let gap: Seq<TokenView> = if c < s0.start {
            seq![TokenView::Text(text.subrange(c, s0.start))]
        } else {
            Seq::<TokenView>::empty()
        };
        let color = seq![TokenView::Color(span_kind_view(s0), s0.rgb)];
        assert(emit_tokens(text, spans, c) == gap + color + emit_tokens(text, rest, s0.end));
        assert forall|k: int| 0 <= k < rest.len() implies {
            &&& s0.end <= (#[trigger] rest[k]).start < rest[k].end
            &&& rest[k].end <= text.len()
            &&& render_color(span_kind_view(rest[k]), rest[k].rgb)
                == text.subrange(rest[k].start, rest[k].end)
        } by {
            assert(rest[k] == spans[k + 1]);
        }
        lemma_emit_serialize(text, rest, s0.end);
        lemma_serialize_concat(gap + color, emit_tokens(text, rest, s0.end));
        lemma_serialize_concat(gap, color);
        lemma_serialize_singleton(TokenView::Color(span_kind_view(s0), s0.rgb));
        if c < s0.start {
            lemma_serialize_singleton(TokenView::Text(text.subrange(c, s0.start)));
        } else {
            assert(serialize_tokens(gap) =~= Seq::<char>::empty());
        }
        assert(serialize_tokens(emit_tokens(text, spans, c)) =~= text.subrange(
            c,
            text.len() as int,
        ));
    }
}

/// Unedited round trip: serializing the parse of any text whose recognized
/// color literals are written in decimal or lower-case digits reproduces the
/// text exactly, byte for byte, prefixes included.
pub proof fn lemma_unedited_round_trip(text: Seq<char>, opts: ParseOptions)
    requires
        forall|k: int| 0 <= k < claimed_spans(text, opts).len()
            ==> span_digits_lower(text, #[trigger] claimed_spans(text, opts)[k]),
    ensures
        serialize_tokens(parse_text_tokens(text, opts)) == text,
{
    let spans = claimed_spans(text, opts);
    lemma_claimed_spans_props(text, opts);
    assert forall|k: int| 0 <= k < spans.len() implies {
        &&& (#[trigger] spans[k]).end <= text.len()
        &&& render_color(span_kind_view(spans[k]), spans[k].rgb)
            == text.subrange(spans[k].start, spans[k].end)
    } by {
        assert(span_ok(text, spans[k]));
        lemma_span_renders_back(text, spans[k]);
    }
    lemma_emit_serialize(text, spans, 0);
    assert(text.subrange(0, text.len() as int) =~= text);
}

/// Identity round trip: a text in which no color is recognized under the
/// given options serializes back to itself.
pub proof fn lemma_identity_round_trip(text: Seq<char>, opts: ParseOptions)
    requires
        claimed_spans(text, opts).len() == 0,
    ensures
        serialize_tokens(parse_text_tokens(text, opts)) == text,
{
    lemma_claimed_spans_props(text, opts);
    lemma_emit_serialize(text, claimed_spans(text, opts), 0);
    assert(text.subrange(0, text.len() as int) =~= text);
}

proof fn lemma_count_concat(a: Seq<TokenView>, b: Seq<TokenView>)
    ensures
        count_color_tokens(a + b) == count_color_tokens(a) + count_color_tokens(b),
    decreases a.len(),
{
    if a.len() == 0 {
        assert(a + b =~= b);
    } else {
        lemma_count_concat(a.drop_first(), b);
        assert((a + b).drop_first() =~= a.drop_first() + b);
        assert((a + b)[0] == a[0]);
    }
}

proof fn lemma_emit_counts(text: Seq<char>, spans: Seq<SpanV>, c: int)
    ensures
        count_color_tokens(emit_tokens(text, spans, c)) == spans.len(),
    decreases spans.len(),
{
    if spans.len() == 0 {
        if c < text.len() {
            let t = TokenView::Text(text.subrange(c, text.len() as int));
            assert(seq![t].drop_first() =~= Seq::<TokenView>::empty());
            assert(count_color_tokens(seq![t].drop_first()) == 0);
        }
    } else {
        let s0 = spans[0];
        let gap: Seq<TokenView> = if c < s0.start {
            seq![TokenView::Text(text.subrange(c, s0.start))]
        } else {
            Seq::<TokenView>::empty()
        };
        let color = seq![TokenView::Color(span_kind_view(s0), s0.rgb)];
        lemma_emit_counts(text, spans.drop_first(), s0.end);
        lemma_count_concat(gap + color, emit_tokens(text, spans.drop_first(), s0.end));
        lemma_count_concat(gap, color);
        assert(color.drop_first() =~= Seq::<TokenView>::empty());
        assert(count_color_tokens(color.drop_first()) == 0);
        if c < s0.start {
            let t = TokenView::Text(text.subrange(c, s0.start));
            assert(seq![t].drop_first() =~= Seq::<TokenView>::empty());
            assert(count_color_tokens(seq![t].drop_first()) == 0);
        }
    }
}

/// The reported color count is exactly the number of color tokens in the
/// parse: every claimed span becomes one color token, and gaps become text.
pub proof fn lemma_color_count_matches_tokens(text: Seq<char>, opts: ParseOptions)
    ensures
        count_color_tokens(parse_text_tokens(text, opts))
            == crate::color_file::color_count_spec(text, opts),
{
    lemma_emit_counts(text, claimed_spans(text, opts), 0);
}

/// Decoding does not invert one-digit encoding: some channel values are not
/// representable and come back changed.
pub proof fn lemma_hex3_decode_not_inverse()
    ensures
        exists|v: u8| crate::color::hex3_channel(crate::color::hex3_encode(v)) != v,
{
    assert(crate::color::hex3_channel(crate::color::hex3_encode(1u8)) == 0u8);
}

} // verus!
