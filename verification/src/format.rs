//! The highlighter for format strings: it notes which string literal of a
//! macro call is the template of a formatting macro, and highlights the
//! format specifiers in that literal.

use crate::element::{Element, FormatPiece, FormatSpecifier};
use crate::range_stack::{
    added_all, all_wf, all_within, can_pop, disjoint_sorted, lemma_merged_disjoint,
    lemma_split_around, merged, popped, pushed, solid, Frame, HighlightedRange,
    HighlightedRangeStack,
};
use crate::tags::{Highlight, HighlightTag, SymbolKind};
use crate::text_range::TextRange;
use vstd::prelude::*;

verus! {

/// Whether `name` is the name of one of the macros that take a format
/// string as their first argument.
pub open spec fn is_format_macro(name: Seq<char>) -> bool {
    name == "format_args"@ || name == "format_args_nl"@
}

/// The tag of a piece of a format string: numbers are numeric literals,
/// names are locals, and the rest is a format specifier.
pub open spec fn format_tag(kind: FormatSpecifier) -> HighlightTag {
    match kind {
        FormatSpecifier::Integer | FormatSpecifier::Zero => HighlightTag::NumericLiteral,
        FormatSpecifier::Identifier => HighlightTag::Symbol(SymbolKind::Local),
        _ => HighlightTag::FormatSpecifier,
    }
}

pub fn highlight_format_specifier(kind: FormatSpecifier) -> (tag: Option<HighlightTag>)
    ensures
        tag == Some(format_tag(kind)),
{
    Some(
        match kind {
            FormatSpecifier::Open
            | FormatSpecifier::Close
            | FormatSpecifier::Colon
            | FormatSpecifier::Fill
            | FormatSpecifier::Align
            | FormatSpecifier::Sign
            | FormatSpecifier::NumberSign
            | FormatSpecifier::DollarSign
            | FormatSpecifier::Dot
            | FormatSpecifier::Asterisk
            | FormatSpecifier::QuestionMark => HighlightTag::FormatSpecifier,
            FormatSpecifier::Integer | FormatSpecifier::Zero => HighlightTag::NumericLiteral,
            FormatSpecifier::Identifier => HighlightTag::Symbol(SymbolKind::Local),
        },
    )
}

/// The highlighted range of a piece of a format string whose literal starts
/// at `start`.
pub open spec fn format_range(piece: FormatPiece, start: u32) -> HighlightedRange {
    HighlightedRange {
        range: piece.range.shifted(start),
        highlight: Highlight::plain(format_tag(piece.kind)),
        binding_hash: None,
    }
}

/// The highlighted ranges of the pieces of a format string whose literal
/// starts at `start`, in the order of the pieces.
pub open spec fn format_ranges(pieces: Seq<FormatPiece>, start: u32) -> Frame {
    Seq::new(pieces.len(), |i: int| format_range(pieces[i], start))
}

/// Whether each piece is well formed and can be placed in a literal that
/// starts at `start`.
pub open spec fn pieces_fit(pieces: Seq<FormatPiece>, start: u32) -> bool {
    forall|i: int|
        0 <= i < pieces.len() ==> (#[trigger] pieces[i]).range.wf() && pieces[i].range.end + start
            <= u32::MAX
}

/// The template after a look at `token`: where the token stands in a call
/// of a formatting macro, the string literal that is the call's first
/// argument, if it is one; else the template as it was.
pub open spec fn checked(template: Option<TextRange>, token: Element) -> Option<TextRange> {
    match token.facts.enclosing_macro {
        Some(name) => if is_format_macro(name@) {
            token.facts.template
        } else {
            template
        },
        None => template,
    }
}

/// The frames after the format specifiers of `string` are highlighted: if
/// `string` is the template, they are merged into the innermost frame.
pub open spec fn with_format(
    frames: Seq<Frame>,
    template: Option<TextRange>,
    string: Element,
    range: TextRange,
) -> Seq<Frame> {
    if template == Some(string.range) {
        popped(
            added_all(pushed(frames), format_ranges(string.facts.format_pieces@, range.start)),
        )
    } else {
        frames
    }
}

/// Whether the format specifiers of `string` can be highlighted.
pub open spec fn format_fits(
    frames: Seq<Frame>,
    template: Option<TextRange>,
    string: Element,
    range: TextRange,
) -> bool {
    template == Some(string.range) ==> {
        &&& pieces_fit(string.facts.format_pieces@, range.start)
        &&& can_pop(
            added_all(pushed(frames), format_ranges(string.facts.format_pieces@, range.start)),
        )
    }
}

/// The highlighter for format strings. It holds the place of the string
/// literal that is the template of the macro call at hand, if one is known.
#[derive(Clone, Copy, Debug)]
pub struct FormatStringHighlighter {
    format_string: Option<TextRange>,
}

impl View for FormatStringHighlighter {
    type V = Option<TextRange>;

    closed spec fn view(&self) -> Option<TextRange> {
        self.format_string
    }
}

impl FormatStringHighlighter {
    /// The highlighter that knows of no template.
    pub fn new() -> (highlighter: FormatStringHighlighter)
        ensures
            highlighter@ is None,
    {
        FormatStringHighlighter { format_string: None }
    }

    /// Looks at a token of a macro call: if the call is one of a formatting
    /// macro, its first argument is the template from now on, if it is a
    /// string literal.
    pub fn check_for_format_string(&mut self, token: &Element)
        ensures
            final(self)@ == checked(old(self)@, *token),
    {
        if let Some(name) = &token.facts.enclosing_macro {
            let format_args = "format_args".to_owned();
            let format_args_nl = "format_args_nl".to_owned();
            if *name == format_args || *name == format_args_nl {
                self.format_string = token.facts.template;
            }
        }
    }

    fn is_template(&self, string: &Element) -> (b: bool)
        ensures
            b == (self@ == Some(string.range)),
    {
        match self.format_string {
            Some(template) => template == string.range,
            None => false,
        }
    }

    /// Highlights the format specifiers of `string`, a literal that stands
    /// at `range` in the source text, if it is the template.
    pub fn highlight_format_string(
        &self,
        range_stack: &mut HighlightedRangeStack,
        string: &Element,
        range: TextRange,
    )
        requires
            old(range_stack).wf(),
            format_fits(old(range_stack)@, self@, *string, range),
        ensures
            final(range_stack).wf(),
            final(range_stack)@ == with_format(old(range_stack)@, self@, *string, range),
    {
        let fits = self.try_highlight_format_string(range_stack, string, range);
        assert(fits);
    }

    /// Highlights the format specifiers of `string` as
    /// `highlight_format_string` does if that can be done, and says whether
    /// it was done.
    pub fn try_highlight_format_string(
        &self,
        range_stack: &mut HighlightedRangeStack,
        string: &Element,
        range: TextRange,
    ) -> (ok: bool)
        requires
            old(range_stack).wf(),
        ensures
            final(range_stack).wf(),
            ok == format_fits(old(range_stack)@, self@, *string, range),
            ok ==> final(range_stack)@ == with_format(old(range_stack)@, self@, *string, range),
    {
        if self.is_template(string) {
            if !do_pieces_fit(&string.facts.format_pieces, range.start()) {
                return false;
            }
            range_stack.push();
            add_format_pieces(range_stack, &string.facts.format_pieces, range.start());
            range_stack.try_pop()
        } else {
            true
        }
    }
}

/// Whether each piece is well formed and can be placed in a literal that
/// starts at `start`.
fn do_pieces_fit(pieces: &Vec<FormatPiece>, start: u32) -> (b: bool)
    ensures
        b == pieces_fit(pieces@, start),
{
    let mut i: usize = 0;
    while i < pieces.len()
        invariant
            0 <= i <= pieces@.len(),
            forall|k: int|
                0 <= k < i ==> (#[trigger] pieces@[k]).range.wf() && pieces@[k].range.end + start
                    <= u32::MAX,
        decreases pieces@.len() - i,
    {
        let range = pieces[i].range;
        if range.start() > range.end() || range.end() > u32::MAX - start {
            assert(!(pieces@[i as int].range.wf() && pieces@[i as int].range.end + start
                <= u32::MAX));
            return false;
        }
        i += 1;
    }
    true
}

/// Adds the highlighted ranges of the pieces of a format string whose
/// literal starts at `start` to the innermost frame.
fn add_format_pieces(range_stack: &mut HighlightedRangeStack, pieces: &Vec<FormatPiece>, start: u32)
    requires
        old(range_stack).wf(),
        pieces_fit(pieces@, start),
    ensures
        final(range_stack).wf(),
        final(range_stack)@ == added_all(old(range_stack)@, format_ranges(pieces@, start)),
{
    let ghost frames = range_stack@;
    let ghost ranges = format_ranges(pieces@, start);
    let mut i: usize = 0;
    proof {
        assert(frames.last() + ranges.take(0) =~= frames.last());
        assert(added_all(frames, ranges.take(0)) =~= frames);
    }
    while i < pieces.len()
        invariant
            0 <= i <= pieces@.len(),
            ranges == format_ranges(pieces@, start),
            pieces_fit(pieces@, start),
            frames.len() >= 1,
            range_stack.wf(),
            range_stack@ == added_all(frames, ranges.take(i as int)),
        decreases pieces@.len() - i,
    {
        let piece = pieces[i];
        proof {
            crate::range_stack::lemma_added_all_step(frames, ranges, i as int);
        }
        if let Some(tag) = highlight_format_specifier(piece.kind) {
            range_stack.add(
                HighlightedRange {
                    range: piece.range.offset_by(start),
                    highlight: Highlight::new(tag),
                    binding_hash: None,
                },
            );
        }
        i += 1;
    }
    assert(ranges.take(i as int) =~= ranges);
}

/// The ranges of the pieces of a format string lie where the pieces lie in
/// the literal: within the literal's range if the pieces lie within the
/// literal, and free of overlap if the pieces are.
pub proof fn lemma_format_ranges_within(pieces: Seq<FormatPiece>, range: TextRange)
    requires
        range.wf(),
        forall|i: int|
            0 <= i < pieces.len() ==> (#[trigger] pieces[i]).range.wf() && pieces[i].range.end
                <= range.end - range.start,
    ensures
        pieces_fit(pieces, range.start),
        format_ranges(pieces, range.start).len() == pieces.len(),
        forall|i: int|
            0 <= i < pieces.len() ==> range.encloses(
                (#[trigger] format_ranges(pieces, range.start)[i]).range,
            ),
        forall|i: int, j: int|
            0 <= i < pieces.len() && 0 <= j < pieces.len() && pieces[i].range.end
                <= pieces[j].range.start ==> (#[trigger] format_ranges(
                pieces,
                range.start,
            )[i]).range.end <= (#[trigger] format_ranges(pieces, range.start)[j]).range.start,
{
    assert forall|i: int| 0 <= i < pieces.len() implies range.encloses(
        (#[trigger] format_ranges(pieces, range.start)[i]).range,
    ) by {
        assert(pieces[i].range.wf());
    }
    assert forall|i: int, j: int|
        0 <= i < pieces.len() && 0 <= j < pieces.len() && pieces[i].range.end
            <= pieces[j].range.start implies (#[trigger] format_ranges(
        pieces,
        range.start,
    )[i]).range.end <= (#[trigger] format_ranges(pieces, range.start)[j]).range.start by {
        assert(pieces[i].range.wf());
        assert(pieces[j].range.wf());
    }
}

/// Whether the pieces of a format string are not empty, lie within a
/// literal that stands at `range`, and follow one another.
pub open spec fn pieces_in_order(pieces: Seq<FormatPiece>, range: TextRange) -> bool {
    &&& forall|i: int|
        0 <= i < pieces.len() ==> (#[trigger] pieces[i]).range.start < pieces[i].range.end
            && pieces[i].range.end <= range.end - range.start
    &&& forall|i: int, j: int|
        0 <= i < j < pieces.len() ==> (#[trigger] pieces[i]).range.end <= (
        #[trigger] pieces[j]).range.start
}

/// The format specifiers of a string literal whose pieces are in order can
/// be highlighted in the frame that holds the range of the literal, and
/// leave that frame in order: its ranges are not empty, lie within the
/// literal, and follow one another. The frame is then the range of the
/// literal split around the ranges of the pieces, or the range alone if the
/// literal is not the template.
pub proof fn lemma_format_settles(
    frames: Seq<Frame>,
    template: Option<TextRange>,
    string: Element,
    range: TextRange,
    own: HighlightedRange,
)
    requires
        frames.len() >= 1,
        frames.last() == seq![own],
        own.range == range,
        range.start < range.end,
        pieces_in_order(string.facts.format_pieces@, range),
    ensures
        format_fits(frames, template, string, range),
        with_format(frames, template, string, range).len() == frames.len(),
        with_format(frames, template, string, range).drop_last() == frames.drop_last(),
        with_format(frames, template, string, range).last() == (if template == Some(string.range) {
            merged(seq![own], format_ranges(string.facts.format_pieces@, range.start))
        } else {
            seq![own]
        }),
        solid(with_format(frames, template, string, range).last()),
        disjoint_sorted(with_format(frames, template, string, range).last()),
        all_within(with_format(frames, template, string, range).last(), range),
        solid(format_ranges(string.facts.format_pieces@, range.start)),
        disjoint_sorted(format_ranges(string.facts.format_pieces@, range.start)),
        all_within(format_ranges(string.facts.format_pieces@, range.start), range),
{
    let pieces = string.facts.format_pieces@;
    let ranges = format_ranges(pieces, range.start);
    assert forall|i: int| 0 <= i < ranges.len() implies (#[trigger] ranges[i]).range.start
        < ranges[i].range.end && range.encloses(ranges[i].range) by {
        assert(pieces[i].range.start < pieces[i].range.end);
    }
    assert forall|i: int, j: int| 0 <= i < j < ranges.len() implies (#[trigger] ranges[i]).range.end
        <= (#[trigger] ranges[j]).range.start by {
        assert(pieces[i].range.end <= pieces[j].range.start);
        assert(pieces[i].range.start < pieces[i].range.end);
        assert(pieces[j].range.start < pieces[j].range.end);
    }
    assert(all_wf(ranges)) by {
        assert forall|i: int| 0 <= i < ranges.len() implies (#[trigger] ranges[i]).range.wf() by {}
    }
    assert(all_wf(seq![own]));
    assert(pieces_fit(pieces, range.start)) by {
        assert forall|i: int| 0 <= i < pieces.len() implies (#[trigger] pieces[i]).range.wf()
            && pieces[i].range.end + range.start <= u32::MAX by {}
    }
    if template == Some(string.range) {
        let opened = added_all(pushed(frames), ranges);
        assert(opened =~= frames.push(ranges));
        assert(opened[opened.len() - 2] == seq![own]);
        assert(opened[opened.len() - 1] == ranges);
        assert(opened.drop_last().drop_last() =~= frames.drop_last());
        let res = merged(seq![own], ranges);
        if ranges.len() > 0 {
            assert(own.range.encloses(ranges[0].range));
            assert(crate::range_stack::needs_flattening(seq![own], ranges));
            assert(crate::range_stack::splits(own.range, ranges)) by {
                assert forall|i: int| 0 <= i < ranges.len() implies (#[trigger] ranges[i]).range.end
                    <= own.range.end by {
                    assert(range.encloses(ranges[i].range));
                }
            }
            lemma_merged_disjoint(seq![own], ranges);
            lemma_split_around(own, ranges);
            let split = crate::range_stack::split_around(own, ranges);
            assert(res =~= split);
            assert forall|i: int| 0 <= i < res.len() implies (#[trigger] res[i]).range.start
                < res[i].range.end && range.encloses(res[i].range) by {
                assert(crate::range_stack::child_or_piece(split[i], own, ranges));
                assert(own.range.encloses(split[i].range));
                if ranges.contains(split[i]) {
                    let k = choose|k: int| 0 <= k < ranges.len() && ranges[k] == split[i];
                    assert(ranges[k].range.start < ranges[k].range.end);
                }
            }
        } else {
            assert(res =~= seq![own]);
        }
    }
}

} // verus!
