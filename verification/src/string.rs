use vstd::prelude::*;
use vstd::string::StrSliceExecFns;

use crate::parser::{ColorParser, ColorTuple, lemma_sgr_bounds, sgr_at};

verus! {

/// The single special effect a recognized sequence can request. The bare
/// code `0` (and any unrecognized code) maps to `Normal`.
#[derive(Clone, Copy, PartialEq, Eq, Structural, Debug)]
pub enum Effect {
    Normal,
    Bold,
    Underline,
    Strikethrough,
}

/// Structured styling intent for one text run: optional foreground and
/// background descriptors (`None` means unspecified) and one effect.
#[derive(Clone, Copy, PartialEq, Eq, Debug)]
pub struct Style {
    pub fg: Option<crate::parser::ColorMode>,
    pub bg: Option<crate::parser::ColorMode>,
    pub effect: Effect,
}

/// A contiguous text run paired with the styling that applies to it
/// (`None`: plain text).
#[derive(PartialEq, Eq, Debug)]
pub struct Span {
    pub text: String,
    pub style: Option<Style>,
}

impl View for Span {
    type V = (Seq<char>, Option<Style>);

    open spec fn view(&self) -> Self::V {
        (self.text@, self.style)
    }
}

/// An ordered sequence of styled-or-plain spans: one fully processed line.
#[derive(PartialEq, Eq, Debug)]
pub struct ColoredString {
    pub spans: Vec<Span>,
}

impl View for ColoredString {
    type V = Seq<(Seq<char>, Option<Style>)>;

    open spec fn view(&self) -> Self::V {
        self.spans@.map_values(|sp: Span| sp@)
    }
}

/// The style a recognized sequence's parameters request: the special code
/// `3` swaps foreground and background, and `1`, `4` and `9` select an
/// effect; every other code (or none) leaves the effect at `Normal`.
pub open spec fn style_of(t: ColorTuple) -> Style {
    let (fg, bg) = if t.2 == Some(3u8) {
        (t.1, t.0)
    } else {
        (t.0, t.1)
    };
    let effect = match t.2 {
        Some(1u8) => Effect::Bold,
        Some(4u8) => Effect::Underline,
        Some(9u8) => Effect::Strikethrough,
        _ => Effect::Normal,
    };
    Style { fg, bg, effect }
}

/// The style attached to a flushed run: under the styled policy, the most
/// recently seen sequence's style (none before the first); under the
/// stripping policy, none at all.
pub open spec fn span_style(styled: bool, cur: Option<ColorTuple>) -> Option<Style> {
    if styled {
        match cur {
            Some(t) => Some(style_of(t)),
            None => None,
        }
    } else {
        None
    }
}

/// The shared scanning algorithm: from position `i`, with the pending
/// literal run starting at `start` and `cur` the most recently recognized
/// sequence, emit the remaining spans. A recognized sequence flushes the
/// pending run (styled with `cur`, which the sequence then replaces); an
/// unrecognized position extends the run by one character; the end of
/// input flushes what is left.
pub open spec fn scan_spans(
    s: Seq<char>,
    i: int,
    start: int,
    cur: Option<ColorTuple>,
    styled: bool,
) -> Seq<(Seq<char>, Option<Style>)>
    decreases s.len() - i
    when 0 <= i <= s.len()
    via scan_spans_decreases
{
    if i >= s.len() {
        if start < i {
            seq![(s.subrange(start, i), span_style(styled, cur))]
        } else {
            seq![]
        }
    } else {
        match sgr_at(s, i) {
            Some((end, tok)) => {
                let rest = scan_spans(s, end, end, Some(tok), styled);
                if start < i {
                    seq![(s.subrange(start, i), span_style(styled, cur))] + rest
                } else {
                    rest
                }
            },
            None => scan_spans(s, i + 1, start, cur, styled),
        }
    }
}

#[via_fn]
proof fn scan_spans_decreases(s: Seq<char>, i: int, start: int, cur: Option<ColorTuple>, styled: bool) {
    if 0 <= i < s.len() && sgr_at(s, i) is Some {
        lemma_sgr_bounds(s, i);
    }
}

/// What the stripping policy produces: every recognized sequence removed,
/// the surrounding literal text kept, nothing styled.
pub open spec fn plain_model(s: Seq<char>) -> Seq<(Seq<char>, Option<Style>)> {
    scan_spans(s, 0, 0, None, false)
}

/// What the styling policy produces: every recognized sequence removed and
/// its style applied forward to the following literal text.
pub open spec fn styled_model(s: Seq<char>) -> Seq<(Seq<char>, Option<Style>)> {
    scan_spans(s, 0, 0, None, true)
}

/// What the ignore policy produces: the whole input, escape bytes
/// included, as one plain span.
pub open spec fn unstyled_model(s: Seq<char>) -> Seq<(Seq<char>, Option<Style>)> {
    seq![(s, None::<Style>)]
}

/// The visible text of a span sequence: the concatenation of its runs,
/// styling metadata stripped.
pub open spec fn visible_text(spans: Seq<(Seq<char>, Option<Style>)>) -> Seq<char>
    decreases spans.len(),
{
    if spans.len() == 0 {
        seq![]
    } else {
        spans[0].0 + visible_text(spans.drop_first())
    }
}

proof fn lemma_visible_text_cons(x: (Seq<char>, Option<Style>), rest: Seq<(Seq<char>, Option<Style>)>)
    ensures
        visible_text(seq![x] + rest) == x.0 + visible_text(rest),
{
    let whole = seq![x] + rest;
    assert(whole.drop_first() =~= rest);
    assert(whole[0] == x);
}

proof fn lemma_scan_same_text(
    s: Seq<char>,
    i: int,
    start: int,
    cur: Option<ColorTuple>,
    cur2: Option<ColorTuple>,
)
    requires
        0 <= start <= i <= s.len(),
    ensures
        visible_text(scan_spans(s, i, start, cur, true)) == visible_text(
            scan_spans(s, i, start, cur2, false),
        ),
    decreases s.len() - i,
{
    if i >= s.len() {
        if start < i {
            lemma_visible_text_cons((s.subrange(start, i), span_style(true, cur)), seq![]);
            lemma_visible_text_cons((s.subrange(start, i), span_style(false, cur2)), seq![]);
        }
    } else {
        match sgr_at(s, i) {
            Some((end, tok)) => {
                lemma_sgr_bounds(s, i);
                lemma_scan_same_text(s, end, end, Some(tok), Some(tok));
                if start < i {
                    lemma_visible_text_cons(
                        (s.subrange(start, i), span_style(true, cur)),
                        scan_spans(s, end, end, Some(tok), true),
                    );
                    lemma_visible_text_cons(
                        (s.subrange(start, i), span_style(false, cur2)),
                        scan_spans(s, end, end, Some(tok), false),
                    );
                }
            },
            None => {
                lemma_scan_same_text(s, i + 1, start, cur, cur2);
            },
        }
    }
}

/// The three policies agree on content: stripping the styling from the
/// styled output leaves exactly the plain output's text, and the ignore
/// policy shows the raw input unchanged, escape bytes included.
pub proof fn lemma_policies_agree(s: Seq<char>)
    ensures
        visible_text(styled_model(s)) == visible_text(plain_model(s)),
        visible_text(unstyled_model(s)) == s,
{
    lemma_scan_same_text(s, 0, 0, None, None);
    lemma_visible_text_cons((s, None::<Style>), seq![]);
    assert(visible_text(unstyled_model(s)) =~= s);
}

fn make_style(t: ColorTuple) -> (r: Style)
    ensures
        r == style_of(t),
{
    let (fg0, bg0, sp) = t;
    let swap = match sp {
        Some(v) => v == 3,
        None => false,
    };
    let (fg, bg) = if swap {
        (bg0, fg0)
    } else {
        (fg0, bg0)
    };
    let effect = match sp {
        Some(v) => if v == 1 {
            Effect::Bold
        } else if v == 4 {
            Effect::Underline
        } else if v == 9 {
            Effect::Strikethrough
        } else {
            Effect::Normal
        },
        None => Effect::Normal,
    };
    Style { fg, bg, effect }
}

impl ColoredString {
    /// The shared scan: flush literal runs at recognized sequences, and
    /// under the styled policy carry the latest sequence's style forward.
    fn build(s: &str, styled: bool) -> (r: ColoredString)
        ensures
            r@ == scan_spans(s@, 0, 0, None, styled),
    {
        let len = s.unicode_len();
        let mut spans: Vec<Span> = Vec::new();
        let mut i: usize = 0;
        let mut start: usize = 0;
        let mut cur: Option<ColorTuple> = None;
        while i < len
            invariant
                start <= i <= len,
                len == s@.len(),
                scan_spans(s@, 0, 0, None, styled) == spans@.map_values(|sp: Span| sp@)
                    + scan_spans(s@, i as int, start as int, cur, styled),
            decreases len - i,
        {
            match ColorParser::parse(s, i) {
                Some((end, tok)) => {
                    let ghost pre = spans@.map_values(|sp: Span| sp@);
                    let ghost rest = scan_spans(s@, end as int, end as int, Some(tok), styled);
                    if start < i {
                        let text = s.substring_char(start, i).to_owned();
                        let st = if styled {
                            match cur {
                                Some(t) => Some(make_style(t)),
                                None => None,
                            }
                        } else {
                            None
                        };
                        let flushed = Span { text, style: st };
                        proof {
                            assert(flushed@ == (
                                s@.subrange(start as int, i as int),
                                span_style(styled, cur),
                            ));
                        }
                        spans.push(flushed);
                        proof {
                            assert(spans@.map_values(|sp: Span| sp@) =~= pre.push(flushed@));
                            assert(pre.push(flushed@) + rest =~= pre + (seq![flushed@] + rest));
                        }
                    }
                    cur = Some(tok);
                    start = end;
                    i = end;
                },
                None => {
                    i = i + 1;
                },
            }
        }
        if start < i {
            let ghost pre = spans@.map_values(|sp: Span| sp@);
            let text = s.substring_char(start, i).to_owned();
            let st = if styled {
                match cur {
                    Some(t) => Some(make_style(t)),
                    None => None,
                }
            } else {
                None
            };
            let flushed = Span { text, style: st };
            spans.push(flushed);
            proof {
                assert(spans@.map_values(|sp: Span| sp@) =~= pre.push(flushed@));
                assert(pre.push(flushed@) =~= pre + seq![flushed@]);
            }
        }
        ColoredString { spans }
    }

    /// Strip-and-discard-markup policy: recognized sequences are removed
    /// and only the surrounding literal text is kept, unstyled.
    pub fn plain(s: &str) -> (r: ColoredString)
        ensures
            r@ == plain_model(s@),
    {
        Self::build(s, false)
    }

    /// Strip-and-ignore policy: escape bytes are shown as literal text.
    pub fn unstyled(s: &str) -> (r: ColoredString)
        ensures
            r@ == unstyled_model(s@),
    {
        let mut spans: Vec<Span> = Vec::new();
        spans.push(Span { text: s.to_owned(), style: None });
        let r = ColoredString { spans };
        proof {
            assert(r@ =~= unstyled_model(s@));
        }
        r
    }

    /// Apply-styling policy: each literal run carries the style of the
    /// most recently recognized sequence before it.
    pub fn styled(s: &str) -> (r: ColoredString)
        ensures
            r@ == styled_model(s@),
    {
        Self::build(s, true)
    }
}

} // verus!
