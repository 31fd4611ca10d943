//! The document model: a text file as an ordered sequence of literal-text
//! and recognized-color tokens, with format-preserving re-serialization.

use vstd::prelude::*;

use crate::color::{hex3_encode, hex6_encode_hi, hex6_encode_lo, Rgb};
use crate::matcher::ColorKindDiscriminants;
use crate::parse_options::ParseOptions;
use crate::spans::{
    claimed_spans, claims_upto, lemma_claimed_spans_props, merge_claims, merge_spans,
    priority_order, priority_order_spec, scan_claims, spans_bounded, spans_ok,
    spans_sorted_disjoint, spans_view, ClaimedRange, SpanV,
};

verus! {

/// The notation identity of one recognized color, with its captured prefix.
#[verifier::ext_equal]
pub struct ColorKindView {
    pub d: ColorKindDiscriminants,
    pub prefix: Seq<char>,
}

/// One recognized color notation occurrence: which shape matched, and the
/// prefix (`#`, `0x` or empty) captured verbatim so that saving replays
/// whichever prefix style the file's author wrote, without normalizing it.
pub enum ColorKind {
    /// e.g. `#ebc17a`, where the prefix is `#`.  The prefix can be empty.
    Hex6 { prefix: String },
    /// e.g. `#ebc`.
    Hex3 { prefix: String },
}

impl View for ColorKind {
    type V = ColorKindView;

    open spec fn view(&self) -> ColorKindView {
        match self {
            ColorKind::Hex6 { prefix } => ColorKindView {
                d: ColorKindDiscriminants::Hex6,
                prefix: prefix@,
            },
            ColorKind::Hex3 { prefix } => ColorKindView {
                d: ColorKindDiscriminants::Hex3,
                prefix: prefix@,
            },
        }
    }
}

/// The abstract value of one token.
#[verifier::ext_equal]
pub enum TokenView {
    Color(ColorKindView, Rgb),
    Text(Seq<char>),
}

/// One contiguous unit of the document: literal text held verbatim, or one
/// recognized color with its decoded, editable value.
pub enum Token {
    Color(ColorKind, Rgb),
    Text(String),
}

impl View for Token {
    type V = TokenView;

    open spec fn view(&self) -> TokenView {
        match self {
            Token::Color(kind, value) => TokenView::Color(kind@, *value),
            Token::Text(s) => TokenView::Text(s@),
        }
    }
}

pub open spec fn tokens_view(ts: Seq<Token>) -> Seq<TokenView> {
    ts.map_values(|t: Token| t@)
}

/// The text a color token renders to: the captured prefix, then each channel
/// in the notation's own digit form.
pub open spec fn render_color(kind: ColorKindView, value: Rgb) -> Seq<char> {
    kind.prefix + match kind.d {
        ColorKindDiscriminants::Hex6 => seq![
            hex6_encode_hi(value.r),
            hex6_encode_lo(value.r),
            hex6_encode_hi(value.g),
            hex6_encode_lo(value.g),
            hex6_encode_hi(value.b),
            hex6_encode_lo(value.b),
        ],
        ColorKindDiscriminants::Hex3 => seq![
            hex3_encode(value.r),
            hex3_encode(value.g),
            hex3_encode(value.b),
        ],
    }
}

/// The text one token renders to: stored content for literal text, the
/// notation's own encoding for a color.
pub open spec fn render_token(t: TokenView) -> Seq<char> {
    match t {
        TokenView::Color(kind, value) => render_color(kind, value),
        TokenView::Text(s) => s,
    }
}

/// The whole rendered document, tokens concatenated in order.
pub open spec fn serialize_tokens(ts: Seq<TokenView>) -> Seq<char>
    decreases ts.len(),
{
    if ts.len() == 0 {
        Seq::empty()
    } else {
        render_token(ts[0]) + serialize_tokens(ts.drop_first())
    }
}

/// The kind a claimed span carries.
pub open spec fn span_kind_view(s: SpanV) -> ColorKindView {
    ColorKindView { d: s.d, prefix: s.prefix }
}

/// The token sequence the sorted claimed spans carve out of the text,
/// starting at cursor position `c`: a literal-text token for each non-empty
/// gap, a color token for each span.
pub open spec fn emit_tokens(text: Seq<char>, spans: Seq<SpanV>, c: int) -> Seq<TokenView>
    decreases spans.len(),
{
    if spans.len() == 0 {
        if c < text.len() {
            seq![TokenView::Text(text.subrange(c, text.len() as int))]
        } else {
            Seq::empty()
        }
    } else {
        (if c < spans[0].start {
            seq![TokenView::Text(text.subrange(c, spans[0].start))]
        } else {
            Seq::<TokenView>::empty()
        }) + seq![TokenView::Color(span_kind_view(spans[0]), spans[0].rgb)] + emit_tokens(
            text,
            spans.drop_first(),
            spans[0].end,
        )
    }
}

/// The token sequence a text parses to under the given options.
pub open spec fn parse_text_tokens(text: Seq<char>, opts: ParseOptions) -> Seq<TokenView> {
    emit_tokens(text, claimed_spans(text, opts), 0)
}

/// How many color tokens a text parses to under the given options.
pub open spec fn color_count_spec(text: Seq<char>, opts: ParseOptions) -> int {
    claimed_spans(text, opts).len() as int
}

/// How many color tokens a token sequence holds.
pub open spec fn count_color_tokens(ts: Seq<TokenView>) -> int
    decreases ts.len(),
{
    if ts.len() == 0 {
        0
    } else {
        (if ts[0] is Color {
            1int
        } else {
            0int
        }) + count_color_tokens(ts.drop_first())
    }
}

/// The literal text a color token currently stands for: its prefix followed
/// by the channels in the notation's own digit form (lower case).  For the
/// three-digit notation each channel digit is `value / 16`, truncating, so a
/// value that is not a multiple of 17 loses precision on purpose.
pub fn color_to_text(color_kind: &ColorKind, color: Rgb) -> (r: String)
    ensures
        r@ == render_color(color_kind@, color),
{
    match color_kind {
        ColorKind::Hex6 { prefix } => {
            let mut out = prefix.clone();
            out.append(crate::color::hex_char_str(color.r / 16));
            out.append(crate::color::hex_char_str(color.r % 16));
            out.append(crate::color::hex_char_str(color.g / 16));
            out.append(crate::color::hex_char_str(color.g % 16));
            out.append(crate::color::hex_char_str(color.b / 16));
            out.append(crate::color::hex_char_str(color.b % 16));
            proof {
                assert(out@ =~= render_color(color_kind@, color));
            }
            out
        },
        ColorKind::Hex3 { prefix } => {
            let mut out = prefix.clone();
            out.append(crate::color::hex_char_str(color.r / 16));
            out.append(crate::color::hex_char_str(color.g / 16));
            out.append(crate::color::hex_char_str(color.b / 16));
            proof {
                assert(out@ =~= render_color(color_kind@, color));
            }
            out
        },
    }
}

/// The notation-with-prefix value a claimed range carries.
fn kind_of_claim(d: ColorKindDiscriminants, prefix: String) -> (kind: ColorKind)
    ensures
        kind@ == (ColorKindView { d, prefix: prefix@ }),
{
    match d {
        ColorKindDiscriminants::Hex6 => ColorKind::Hex6 { prefix },
        ColorKindDiscriminants::Hex3 => ColorKind::Hex3 { prefix },
    }
}

/// Turns a full text buffer into its ordered token sequence and the number
/// of recognized colors.
///
/// Notations claim ranges in priority order; the final claimed ranges, kept
/// sorted by start offset, are walked left to right, a literal-text token
/// covering each non-empty gap.
pub fn parse_text(source: &str, parse_options: &ParseOptions) -> (r: (Vec<Token>, usize))
    ensures
        tokens_view(r.0@) == parse_text_tokens(source@, *parse_options),
        r.1 as int == color_count_spec(source@, *parse_options),
{
    let ghost text = source@;
    let ghost opts = *parse_options;
    let order = priority_order();
    let mut claimed: Vec<ClaimedRange> = Vec::new();
    let mut k: usize = 0;
    while k < order.len()
        invariant
            k <= order@.len(),
            order@ == priority_order_spec(),
            opts == *parse_options,
            text == source@,
            spans_view(claimed@) == claims_upto(text, opts, order@.take(k as int)),
        decreases order@.len() - k,
    {
        let ghost prev = spans_view(claimed@);
        let d = order[k];
        let allow = crate::parse_options::prefix_allowed_exec(d, parse_options);
        let newc = scan_claims(source, d, allow, &claimed);
        claimed = merge_claims(claimed, newc);
        proof {
            let step = order@.take(k as int + 1);
            assert(step.drop_last() =~= order@.take(k as int));
            assert(step.last() == d);
            assert(spans_view(claimed@) == claims_upto(text, opts, step));
        }
        k += 1;
    }
    proof {
        assert(order@.take(order@.len() as int) =~= order@);
        assert(spans_view(claimed@) == claimed_spans(text, opts));
        lemma_claimed_spans_props(text, opts);
    }
    let ghost all_spans = spans_view(claimed@);
    let count = claimed.len();
    let len = source.unicode_len();
    let mut tokens: Vec<Token> = Vec::new();
    let mut cpos: usize = 0;
    while claimed.len() > 0
        invariant
            text == source@,
            len as nat == text.len(),
            cpos <= len,
            spans_ok(text, spans_view(claimed@)),
            spans_sorted_disjoint(spans_view(claimed@)),
            spans_bounded(spans_view(claimed@), cpos as int),
            tokens_view(tokens@) + emit_tokens(text, spans_view(claimed@), cpos as int)
                == emit_tokens(text, all_spans, 0),
        decreases claimed@.len(),
    {
        let ghost spans_pre = spans_view(claimed@);
        let ghost tokens_pre = tokens@;
        let cr = claimed.remove(0);
        let ClaimedRange { start, end, d, prefix, rgb } = cr;
        proof {
            assert(spans_view(claimed@) =~= spans_pre.drop_first());
            assert(spans_pre[0].end <= text.len());
        }
        if cpos < start {
            let gap = source.substring_char(cpos, start).to_owned();
            tokens.push(Token::Text(gap));
        }
        let kind = kind_of_claim(d, prefix);
        tokens.push(Token::Color(kind, rgb));
        proof {
            assert(tokens_view(tokens@) =~= tokens_view(tokens_pre) + (
                if cpos < start {
                    seq![TokenView::Text(text.subrange(cpos as int, start as int))]
                } else {
                    Seq::<TokenView>::empty()
                }
            ) + seq![TokenView::Color(span_kind_view(spans_pre[0]), spans_pre[0].rgb)]);
            assert(tokens_view(tokens@) + emit_tokens(text, spans_view(claimed@), end as int)
                =~= tokens_view(tokens_pre) + emit_tokens(text, spans_pre, cpos as int));
        }
        cpos = end;
    }
    proof {
        assert(spans_view(claimed@) =~= Seq::<SpanV>::empty());
    }
    if cpos < len {
        let ghost tokens_pre = tokens@;
        let tail = source.substring_char(cpos, len).to_owned();
        tokens.push(Token::Text(tail));
        proof {
            assert(tokens_view(tokens@) =~= tokens_view(tokens_pre).push(
                TokenView::Text(text.subrange(cpos as int, text.len() as int)),
            ));
            assert(tokens_view(tokens@) =~= tokens_view(tokens_pre) + emit_tokens(
                text,
                spans_view(claimed@),
                cpos as int,
            ));
        }
    } else {
        proof {
            assert(emit_tokens(text, spans_view(claimed@), cpos as int)
                =~= Seq::<TokenView>::empty());
            assert(tokens_view(tokens@) + emit_tokens(text, spans_view(claimed@), cpos as int)
                =~= tokens_view(tokens@));
        }
    }
    (tokens, count)
}

/// An open document: the ordered token sequence parsed from one file's text,
/// the number of recognized colors, and the path the rendered text belongs
/// to.  Tokens are produced once, at load; afterwards only the value of a
/// color token changes, through `set_color`.
pub struct ColorFile {
    pub tokens: Vec<Token>,
    pub color_count: usize,
    pub path: String,
}

impl ColorFile {
    /// Builds the document for `path` from the text read from it.  The
    /// caller reads the file; the token sequence and color count come from
    /// `parse_text`.
    pub fn new(path: String, source: &str, parse_options: &ParseOptions) -> (r: ColorFile)
        ensures
            tokens_view(r.tokens@) == parse_text_tokens(source@, *parse_options),
            r.color_count as int == color_count_spec(source@, *parse_options),
            r.path == path,
    {
        let (tokens, color_count) = parse_text(source, parse_options);
        ColorFile { tokens, color_count, path }
    }

    /// Renders the whole document back to text, in order: literal tokens
    /// verbatim, color tokens through their notation's encoder.  The caller
    /// writes the result to `path`.
    pub fn save(&self) -> (out: String)
        ensures
            out@ == serialize_tokens(tokens_view(self.tokens@)),
    {
        let ghost ts = tokens_view(self.tokens@);
        let mut out = String::new();
        let mut i: usize = 0;
        proof {
            assert(ts.skip(0) =~= ts);
            assert(out@ + serialize_tokens(ts) =~= serialize_tokens(ts));
        }
        while i < self.tokens.len()
            invariant
                i <= self.tokens@.len(),
                ts == tokens_view(self.tokens@),
                out@ + serialize_tokens(ts.skip(i as int)) == serialize_tokens(ts),
            decreases self.tokens@.len() - i,
        {
            let ghost out_pre = out@;
            proof {
                assert(ts.skip(i as int)[0] == ts[i as int]);
                assert(ts.skip(i as int).drop_first() =~= ts.skip(i as int + 1));
            }
            match &self.tokens[i] {
                Token::Text(s) => {
                    out.append(s.as_str());
                },
                Token::Color(kind, value) => {
                    let rendered = color_to_text(kind, *value);
                    out.append(rendered.as_str());
                },
            }
            proof {
                assert(out@ =~= out_pre + render_token(ts[i as int]));
                assert(out@ + serialize_tokens(ts.skip(i as int + 1))
                    =~= out_pre + serialize_tokens(ts.skip(i as int)));
            }
            i += 1;
        }
        proof {
            assert(ts.skip(i as int) =~= Seq::<TokenView>::empty());
            assert(out@ + serialize_tokens(ts.skip(i as int)) =~= out@);
        }
        out
    }

    /// Replaces the value of the color token at `token_index`, keeping its
    /// notation and prefix.  Returns whether anything changed: a literal-text
    /// token or an index out of range leaves the document as it was.
    pub fn set_color(&mut self, token_index: usize, value: Rgb) -> (r: bool)
        ensures
            r == (token_index < old(self).tokens@.len()
                && old(self).tokens@[token_index as int] is Color),
            final(self).color_count == old(self).color_count,
            final(self).path == old(self).path,
            final(self).tokens@.len() == old(self).tokens@.len(),
            r ==> tokens_view(final(self).tokens@) == tokens_view(old(self).tokens@).update(
                token_index as int,
                TokenView::Color(old(self).tokens@[token_index as int]->Color_0@, value),
            ),
            !r ==> final(self).tokens@ == old(self).tokens@,
    {
        if token_index >= self.tokens.len() {
            return false;
        }
        let t = self.tokens.remove(token_index);
        match t {
            Token::Color(kind, _) => {
                self.tokens.insert(token_index, Token::Color(kind, value));
                proof {
                    assert(tokens_view(self.tokens@) =~= tokens_view(old(self).tokens@).update(
                        token_index as int,
                        TokenView::Color(old(self).tokens@[token_index as int]->Color_0@, value),
                    ));
                }
                true
            },
            Token::Text(s) => {
                self.tokens.insert(token_index, Token::Text(s));
                proof {
                    assert(self.tokens@ =~= old(self).tokens@);
                }
                false
            },
        }
    }
}

} // verus!
