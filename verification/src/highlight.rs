//! The driver: it takes the events of a walk one by one, keeps track of the
//! macro call, macro definition and attribute at hand, lets the classifier
//! and the injecting highlighters do their work on each element, and
//! collects the highlighted ranges in the stack of frames.

use crate::bindings::{count_of, ShadowCounts};
use crate::classify::{
    bound_local, countable, counts_after, element_binding_hash, element_highlight, hashes_after,
    highlight_element, is_countable, symbol, used_local,
};
use crate::element::{CharPiece, Element, Local};
use crate::format::{checked, format_fits, with_format, FormatStringHighlighter};
use crate::macro_rules::{in_rule_metavariable, MacroMatcherParseState, MacroRulesHighlighter};
use crate::range_stack::{
    added, added_all, adjacent_disjoint, all_clear, all_wf, all_within, can_pop,
    disjoint_sorted, drawn_from, each_enclosed, frames_wf, holds,
    lemma_added_all_step, lemma_injected_all_clear, lemma_injected_all_keeps,
    lemma_injected_all_settled, settled_to,
    lemma_injected_all_disjoint, lemma_sorted_by_start_of_sorted, popped, popped_and_injected,
    pushed, solid, sorted, sorted_by_start, Frame, HighlightedRange, HighlightedRangeStack,
};
use crate::syntax_kind::SyntaxKind;
use crate::tags::{Highlight, HighlightModifier, HighlightTag, SymbolKind};
use crate::text_range::TextRange;
use crate::walk::{call_range, try_macro_call_range, DocInjection, SourceElement, WalkEvent};
use vstd::prelude::*;

verus! {

/// Whether an element at `range` is looked at: always without a viewport,
/// and with one where the two have a common part.
pub open spec fn in_view(viewport: Option<TextRange>, range: TextRange) -> bool {
    match viewport {
        Some(view) => view.overlap(range) is Some,
        None => true,
    }
}

/// Whether the element is the node of a macro call.
pub open spec fn is_macro_call(item: SourceElement) -> bool {
    !item.element.is_token && item.element.kind == SyntaxKind::MacroCall
}

/// Whether the element is the node of a macro definition.
pub open spec fn is_macro_rules(item: SourceElement) -> bool {
    !item.element.is_token && item.element.kind == SyntaxKind::MacroRules
}

/// Whether the element is the node of an attribute.
pub open spec fn is_attr(item: SourceElement) -> bool {
    !item.element.is_token && item.element.kind == SyntaxKind::Attr
}

/// Whether the element is a token that stands directly among the arguments
/// of a macro call.
pub open spec fn is_argument_token(item: SourceElement) -> bool {
    item.element.is_token && item.element.parent_is(SyntaxKind::TokenTree)
}

/// The token that a token among the arguments of a macro call stands for:
/// the token of the expansion that it leads to, or itself if it leads
/// nowhere.
pub open spec fn descended(item: SourceElement) -> Element {
    match item.descent {
        Some(descent) => descent.token,
        None => item.element,
    }
}

/// The element that is classified in the place of `item`, if any is.
///
/// Outside of macro calls, and for comments, it is the element itself. In a
/// macro call only the tokens among the arguments are classified, each as
/// the token it stands for in the expansion, or as the name or name
/// reference of which that token is the identifier.
pub open spec fn target_of(item: SourceElement, in_macro_call: bool) -> Option<Element> {
    if in_macro_call && item.element.kind != SyntaxKind::Comment {
        if is_argument_token(item) {
            match item.descent {
                Some(descent) => if descent.token.kind == SyntaxKind::Ident && (descent.parent.kind
                    == SyntaxKind::Name || descent.parent.kind == SyntaxKind::NameRef) {
                    Some(descent.parent)
                } else {
                    Some(descent.token)
                },
                None => Some(item.element),
            }
        } else {
            None
        }
    } else {
        Some(item.element)
    }
}

/// Whether the element is a raw string literal whose content is code that
/// is highlighted in its place.
pub open spec fn is_injected_string(item: SourceElement) -> bool {
    &&& item.element.is_token
    &&& item.element.kind == SyntaxKind::String
    &&& item.element.facts.is_raw
    &&& item.injection is Some
}

/// The highlighted range of an escape sequence in a literal that starts at
/// `start`.
pub open spec fn escape_range(piece: CharPiece, start: u32) -> HighlightedRange {
    HighlightedRange {
        range: piece.range.shifted(start),
        highlight: Highlight::plain(HighlightTag::EscapeSequence),
        binding_hash: None,
    }
}

/// Whether the piece is an escape sequence: it stands for a character and
/// starts with a backslash.
pub open spec fn is_escape(piece: CharPiece) -> bool {
    piece.is_valid && piece.starts_with_backslash
}

/// The highlighted ranges of the escape sequences among `pieces`, in the
/// order of the pieces, for a literal that starts at `start`.
pub open spec fn escape_ranges(pieces: Seq<CharPiece>, start: u32) -> Frame
    decreases pieces.len(),
{
    if pieces.len() == 0 {
        Seq::empty()
    } else if is_escape(pieces.last()) {
        escape_ranges(pieces.drop_last(), start).push(escape_range(pieces.last(), start))
    } else {
        escape_ranges(pieces.drop_last(), start)
    }
}

/// The frames after the escape sequences of `string` are highlighted: they
/// are injected into the innermost frame, if the literal can be cut into
/// characters.
pub open spec fn with_escapes(frames: Seq<Frame>, string: Element, range: TextRange) -> Seq<Frame> {
    match string.facts.char_ranges {
        Some(pieces) => popped_and_injected(
            added_all(pushed(frames), escape_ranges(pieces@, range.start)),
            None,
        ),
        None => frames,
    }
}

/// Whether the escape sequences of `string` can be highlighted: each is
/// well formed and can be placed in a literal that stands at `range`.
pub open spec fn escapes_fit(string: Element, range: TextRange) -> bool {
    string.facts.char_ranges matches Some(pieces) ==> forall|i: int|
        0 <= i < pieces@.len() && is_escape(#[trigger] pieces@[i]) ==> pieces@[i].range.wf()
            && pieces@[i].range.end + range.start <= u32::MAX
}

/// The highlight that a range of a comment takes on where code is injected
/// into it.
pub open spec fn injected_highlight() -> Highlight {
    Highlight::plain(HighlightTag::Dummy).plus(HighlightModifier::Injected)
}

/// The ranges of `code`, each marked as injected.
pub open spec fn marked(code: Frame) -> Frame {
    Seq::new(
        code.len(),
        |i: int| code[i].retagged(code[i].highlight.plus(HighlightModifier::Injected)),
    )
}

/// The frames with the code of documentation comments, and above it the
/// comment markers, each in a frame of its own.
pub open spec fn doc_frames(frames: Seq<Frame>, docs: DocInjection) -> Seq<Frame> {
    added_all(pushed(added_all(pushed(frames), marked(docs.code@))), docs.comments@)
}

/// The frames after the code of documentation comments is injected: the
/// comment markers into the code, and the result into the innermost frame,
/// whose ranges take the injected highlight where they are split.
pub open spec fn with_docs(frames: Seq<Frame>, docs: DocInjection) -> Seq<Frame> {
    popped_and_injected(
        popped_and_injected(doc_frames(frames, docs), None),
        Some(injected_highlight()),
    )
}

/// What the driver knows between two events of a walk.
pub struct State {
    /// The frames of the scopes that are open.
    pub frames: Seq<Frame>,
    /// How often each name of a local has been bound in the function at hand.
    pub counts: Map<Seq<char>, u32>,
    /// The hash that each local bound so far was given, by the place of its
    /// declaration.
    pub hashes: Map<TextRange, u64>,
    /// The place of the macro call at hand.
    pub macro_call: Option<TextRange>,
    /// The place of the macro definition at hand.
    pub macro_rules: Option<TextRange>,
    /// The place, in the expansion, of the format string of the macro call
    /// at hand.
    pub template: Option<TextRange>,
    /// Where the tokens read so far lead in the macro definition at hand.
    pub rules: Option<MacroMatcherParseState>,
    pub inside_attribute: bool,
}

impl State {
    /// The state before the first event.
    pub open spec fn initial() -> State {
        State {
            frames: seq![Seq::empty()],
            counts: Map::empty(),
            hashes: Map::empty(),
            macro_call: None,
            macro_rules: None,
            template: None,
            rules: None,
            inside_attribute: false,
        }
    }

    /// The validity of a state.
    pub open spec fn wf(self) -> bool {
        &&& self.frames.len() >= 1
        &&& frames_wf(self.frames)
        &&& self.rules matches Some(rules) ==> rules.wf()
    }

    /// Whether `target`, which stands at `range` in the source text, can be
    /// classified and its ranges be added.
    pub open spec fn classifies(self, range: TextRange, target: Element, syntactic: bool) -> bool {
        &&& countable(target, self.counts)
        &&& element_highlight(target, syntactic) is Some && target.is_token && target.kind
            == SyntaxKind::String ==> {
            &&& format_fits(self.own_frames(range, target, syntactic), self.template, target, range)
            &&& escapes_fit(target, range)
        }
    }

    /// The frames with the range of `target` itself: it is added to the
    /// innermost frame with its highlight, and `Attribute` inside an
    /// attribute, unless it has no highlight or is the name of a
    /// metavariable in a rule of a macro definition.
    pub open spec fn own_frames(self, range: TextRange, target: Element, syntactic: bool) -> Seq<
        Frame,
    > {
        match element_highlight(target, syntactic) {
            Some(h) => if in_rule_metavariable(self.rules, target) {
                self.frames
            } else {
                added(
                    self.frames,
                    HighlightedRange {
                        range,
                        highlight: h.plus_if(self.inside_attribute, HighlightModifier::Attribute),
                        binding_hash: element_binding_hash(target, self.counts, self.hashes),
                    },
                )
            },
            None => self.frames,
        }
    }

    /// The state after `target`, which stands at `range` in the source text,
    /// is classified: its own range is added, and for a string literal the
    /// ranges of its format specifiers and escape sequences.
    pub open spec fn classified(self, range: TextRange, target: Element, syntactic: bool) -> State {
        let own = self.own_frames(range, target, syntactic);
        State {
            counts: counts_after(target, self.counts),
            hashes: hashes_after(target, self.counts, self.hashes),
            frames: if element_highlight(target, syntactic) is Some && target.is_token
                && target.kind == SyntaxKind::String {
                with_escapes(with_format(own, self.template, target, range), target, range)
            } else {
                own
            },
            ..self
        }
    }

    /// The state in which the tokens and nodes inside an element that is
    /// neither a macro call nor a macro definition are looked at: inside an
    /// attribute from an attribute node on, one token further in the macro
    /// definition at hand, and with the format string of the macro call at
    /// hand looked for.
    pub open spec fn noted(self, item: SourceElement) -> State {
        State {
            inside_attribute: self.inside_attribute || is_attr(item),
            rules: if self.macro_rules is Some && item.element.is_token {
                match self.rules {
                    Some(rules) => Some(rules.advanced(item.element.kind)),
                    None => None,
                }
            } else {
                self.rules
            },
            template: if self.macro_call is Some && item.element.kind != SyntaxKind::Comment
                && is_argument_token(item) {
                checked(self.template, descended(item))
            } else {
                self.template
            },
            ..self
        }
    }

    /// Whether `item` can be entered.
    pub open spec fn enters(
        self,
        item: SourceElement,
        viewport: Option<TextRange>,
        syntactic: bool,
    ) -> bool {
        in_view(viewport, item.element.range) ==> if is_macro_call(item) {
            item.macro_call matches Some(call) ==> call_range(call).wf()
        } else if is_macro_rules(item) {
            true
        } else {
            &&& self.macro_rules is Some && item.element.is_token ==> (self.rules matches Some(
                rules,
            ) ==> rules.takes(item.element.kind))
            &&& target_of(item, self.macro_call is Some) matches Some(target) ==> {
                &&& item.element.is_token && item.element.kind == SyntaxKind::String
                    && item.element.facts.is_raw ==> target.is_token
                &&& !is_injected_string(item) ==> State {
                    frames: pushed(self.frames),
                    ..self.noted(item)
                }.classifies(item.element.range, target, syntactic)
            }
        }
    }

    /// The state after `item` is entered.
    ///
    /// A frame is opened for it. If it lies in view, then: a macro call is
    /// noted as the one at hand, and its name is highlighted; a macro
    /// definition is noted as the one at hand; of any other element, the
    /// ranges of the code in an injected string are added as they are, and
    /// else the element is classified.
    pub open spec fn entered(
        self,
        item: SourceElement,
        viewport: Option<TextRange>,
        syntactic: bool,
    ) -> State {
        let frames = pushed(self.frames);
        if !in_view(viewport, item.element.range) {
            State { frames, ..self }
        } else if is_macro_call(item) {
            State {
                frames: match item.macro_call {
                    Some(call) => added(
                        frames,
                        HighlightedRange {
                            range: call_range(call),
                            highlight: symbol(SymbolKind::Macro),
                            binding_hash: None,
                        },
                    ),
                    None => frames,
                },
                macro_call: Some(item.element.range),
                ..self
            }
        } else if is_macro_rules(item) {
            State {
                frames,
                rules: Some(MacroMatcherParseState::initial()),
                macro_rules: Some(item.element.range),
                ..self
            }
        } else {
            let state = State { frames, ..self.noted(item) };
            match target_of(item, self.macro_call is Some) {
                None => state,
                Some(target) => if is_injected_string(item) {
                    State { frames: added_all(frames, item.injection.unwrap()@), ..state }
                } else {
                    state.classified(item.element.range, target, syntactic)
                },
            }
        }
    }

    /// Whether `item` can be left: its frame can be merged, and it is the
    /// macro call or macro definition at hand if it is one.
    pub open spec fn leaves(self, item: SourceElement, viewport: Option<TextRange>) -> bool {
        &&& can_pop(self.frames)
        &&& in_view(viewport, item.element.range) ==> {
            &&& is_macro_call(item) ==> self.macro_call == Some(item.element.range)
            &&& is_macro_rules(item) ==> self.macro_rules == Some(item.element.range)
        }
    }

    /// The state after `item` is left.
    ///
    /// Its frame is merged into the one below. If it lies in view, then: the
    /// macro call or macro definition at hand is over if `item` is one; an
    /// attribute node ends the attribute; and the code in the documentation
    /// comments of a node is injected.
    pub open spec fn left(self, item: SourceElement, viewport: Option<TextRange>) -> State {
        let frames = popped(self.frames);
        if !in_view(viewport, item.element.range) {
            State { frames, ..self }
        } else {
            State {
                frames: if item.element.is_token {
                    frames
                } else {
                    match item.doc_injection {
                        Some(docs) => with_docs(frames, docs),
                        None => frames,
                    }
                },
                counts: self.counts,
                hashes: self.hashes,
                macro_call: if is_macro_call(item) {
                    None
                } else {
                    self.macro_call
                },
                template: if is_macro_call(item) {
                    None
                } else {
                    self.template
                },
                macro_rules: if is_macro_rules(item) {
                    None
                } else {
                    self.macro_rules
                },
                rules: if is_macro_rules(item) {
                    None
                } else {
                    self.rules
                },
                inside_attribute: self.inside_attribute && !is_attr(item),
            }
        }
    }

    /// Whether the state can take `event`.
    pub open spec fn takes(self, event: WalkEvent, viewport: Option<TextRange>, syntactic: bool) -> bool {
        match event {
            WalkEvent::Enter(item) => self.enters(item, viewport, syntactic),
            WalkEvent::Leave(item) => self.leaves(item, viewport),
        }
    }

    /// The state after `event`.
    pub open spec fn after(self, event: WalkEvent, viewport: Option<TextRange>, syntactic: bool) -> State {
        match event {
            WalkEvent::Enter(item) => self.entered(item, viewport, syntactic),
            WalkEvent::Leave(item) => self.left(item, viewport),
        }
    }
}

/// The state after all of `events`, from the first on.
pub open spec fn run(events: Seq<WalkEvent>, viewport: Option<TextRange>, syntactic: bool) -> State
    decreases events.len(),
{
    if events.len() == 0 {
        State::initial()
    } else {
        run(events.drop_last(), viewport, syntactic).after(events.last(), viewport, syntactic)
    }
}

/// Whether the event at `i` is valid and can be taken in the state that
/// the events before it lead to.
#[verifier::opaque]
pub open spec fn step_ok(
    events: Seq<WalkEvent>,
    i: int,
    viewport: Option<TextRange>,
    syntactic: bool,
) -> bool {
    events[i].wf() && run(events.take(i), viewport, syntactic).takes(events[i], viewport, syntactic)
}

/// Whether the walk can be highlighted: each event is valid and can be
/// taken in the state that the events before it lead to, every element that
/// was entered has been left by the end, and no two ranges overlap then.
pub open spec fn sound(events: Seq<WalkEvent>, viewport: Option<TextRange>, syntactic: bool) -> bool {
    &&& forall|i: int| 0 <= i < events.len() ==> #[trigger] step_ok(events, i, viewport, syntactic)
    &&& run(events, viewport, syntactic).frames.len() == 1
    &&& adjacent_disjoint(sorted_by_start(run(events, viewport, syntactic).frames[0]))
}

/// The highlighted ranges of a walk: what the root frame holds when the
/// walk is over, sorted by start.
pub open spec fn highlighted(events: Seq<WalkEvent>, viewport: Option<TextRange>, syntactic: bool) -> Frame {
    sorted_by_start(run(events, viewport, syntactic).frames[0])
}

/// Opens a frame with the code of documentation comments, each range
/// marked as injected, and above it a frame with the comment markers.
fn add_doc_frames(docs: &DocInjection, stack: &mut HighlightedRangeStack)
    requires
        old(stack).wf(),
        all_wf(docs.code@),
        all_wf(docs.comments@),
    ensures
        final(stack).wf(),
        final(stack)@ == doc_frames(old(stack)@, *docs),
{
    let ghost frames = pushed(stack@);
    let ghost ranges = marked(docs.code@);
    stack.push();
    let mut i: usize = 0;
    proof {
        assert(frames.last() + ranges.take(0) =~= frames.last());
        assert(added_all(frames, ranges.take(0)) =~= frames);
    }
    while i < docs.code.len()
        invariant
            0 <= i <= docs.code@.len(),
            ranges == marked(docs.code@),
            all_wf(docs.code@),
            frames.len() >= 1,
            stack.wf(),
            stack@ == added_all(frames, ranges.take(i as int)),
        decreases docs.code@.len() - i,
    {
        let h = docs.code[i];
        proof {
            lemma_added_all_step(frames, ranges, i as int);
        }
        stack.add(
            HighlightedRange {
                range: h.range,
                highlight: h.highlight.with(HighlightModifier::Injected),
                binding_hash: h.binding_hash,
            },
        );
        i += 1;
    }
    assert(ranges.take(i as int) =~= ranges);
    stack.push();
    stack.add_all(&docs.comments);
}

/// Highlights the code in the documentation comments of a node: the code
/// and the comment markers in front of it are injected into the innermost
/// frame, which holds the comments themselves.
pub fn highlight_doc_comment(docs: &DocInjection, stack: &mut HighlightedRangeStack)
    requires
        old(stack).wf(),
        all_wf(docs.code@),
        all_wf(docs.comments@),
    ensures
        final(stack).wf(),
        final(stack)@ == with_docs(old(stack)@, *docs),
{
    add_doc_frames(docs, stack);
    stack.pop_and_inject(None);
    stack.pop_and_inject(Some(Highlight::new(HighlightTag::Dummy).with(HighlightModifier::Injected)));
}

/// Whether each escape sequence among `pieces` is well formed and can be
/// placed in a literal that starts at `start`.
fn do_escapes_fit(pieces: &Vec<CharPiece>, start: u32) -> (b: bool)
    ensures
        b == forall|i: int|
            0 <= i < pieces@.len() && is_escape(#[trigger] pieces@[i]) ==> pieces@[i].range.wf()
                && pieces@[i].range.end + start <= u32::MAX,
{
    let mut i: usize = 0;
    while i < pieces.len()
        invariant
            0 <= i <= pieces@.len(),
            forall|k: int|
                0 <= k < i && is_escape(#[trigger] pieces@[k]) ==> pieces@[k].range.wf()
                    && pieces@[k].range.end + start <= u32::MAX,
        decreases pieces@.len() - i,
    {
        let piece = pieces[i];
        if piece.is_valid && piece.starts_with_backslash && (piece.range.start()
            > piece.range.end() || piece.range.end() > u32::MAX - start) {
            assert(is_escape(pieces@[i as int]) && !(pieces@[i as int].range.wf() && pieces@[i as int].range.end
                + start <= u32::MAX));
            return false;
        }
        i += 1;
    }
    true
}

/// Opens a frame with the highlighted ranges of the escape sequences among
/// `pieces`, for a literal that starts at `start`.
fn add_escapes(stack: &mut HighlightedRangeStack, pieces: &Vec<CharPiece>, start: u32)
    requires
        old(stack).wf(),
        forall|i: int|
            0 <= i < pieces@.len() && is_escape(#[trigger] pieces@[i]) ==> pieces@[i].range.wf()
                && pieces@[i].range.end + start <= u32::MAX,
    ensures
        final(stack).wf(),
        final(stack)@ == added_all(pushed(old(stack)@), escape_ranges(pieces@, start)),
{
    let ghost frames = pushed(stack@);
    stack.push();
    let mut i: usize = 0;
    proof {
        assert(pieces@.take(0) =~= Seq::<CharPiece>::empty());
        assert(frames.last() + escape_ranges(pieces@.take(0), start) =~= frames.last());
        assert(added_all(frames, escape_ranges(pieces@.take(0), start)) =~= frames);
    }
    while i < pieces.len()
        invariant
            0 <= i <= pieces@.len(),
            forall|k: int|
                0 <= k < pieces@.len() && is_escape(#[trigger] pieces@[k]) ==> pieces@[k].range.wf()
                    && pieces@[k].range.end + start <= u32::MAX,
            frames.len() >= 1,
            stack.wf(),
            stack@ == added_all(frames, escape_ranges(pieces@.take(i as int), start)),
        decreases pieces@.len() - i,
    {
        let piece = pieces[i];
        proof {
            let grown = pieces@.take(i + 1);
            assert(grown.last() == piece);
            assert(grown.drop_last() =~= pieces@.take(i as int));
            let before = escape_ranges(pieces@.take(i as int), start);
            assert(added_all(frames, before).drop_last() =~= frames.drop_last());
            assert((frames.last() + before).push(escape_range(piece, start)) =~= frames.last()
                + before.push(escape_range(piece, start)));
        }
        if piece.is_valid && piece.starts_with_backslash {
            stack.add(
                HighlightedRange {
                    range: piece.range.offset_by(start),
                    highlight: Highlight::new(HighlightTag::EscapeSequence),
                    binding_hash: None,
                },
            );
        }
        i += 1;
    }
    assert(pieces@.take(i as int) =~= pieces@);
}

/// Highlights the escape sequences of `string`, a literal that stands at
/// `range` in the source text.
pub fn highlight_escapes(stack: &mut HighlightedRangeStack, string: &Element, range: TextRange)
    requires
        old(stack).wf(),
        escapes_fit(*string, range),
    ensures
        final(stack).wf(),
        final(stack)@ == with_escapes(old(stack)@, *string, range),
{
    let fit = try_highlight_escapes(stack, string, range);
    assert(fit);
}

/// Highlights the escape sequences of `string` as `highlight_escapes` does
/// if that can be done, and says whether it was done.
pub fn try_highlight_escapes(
    stack: &mut HighlightedRangeStack,
    string: &Element,
    range: TextRange,
) -> (ok: bool)
    requires
        old(stack).wf(),
    ensures
        final(stack).wf(),
        ok == escapes_fit(*string, range),
        ok ==> final(stack)@ == with_escapes(old(stack)@, *string, range),
{
    if let Some(char_ranges) = &string.facts.char_ranges {
        if !do_escapes_fit(char_ranges, range.start()) {
            return false;
        }
        add_escapes(stack, char_ranges, range.start());
        stack.pop_and_inject(None);
    }
    true
}

/// The driver of the highlighting: it is fed the events of a walk, and
/// hands out the highlighted ranges when the walk is over.
pub struct Highlighter {
    stack: HighlightedRangeStack,
    bindings_shadow_count: ShadowCounts,
    current_macro_call: Option<TextRange>,
    current_macro_rules: Option<TextRange>,
    format_string_highlighter: FormatStringHighlighter,
    macro_rules_highlighter: MacroRulesHighlighter,
    inside_attribute: bool,
    range_to_highlight: Option<TextRange>,
    syntactic_name_ref_highlighting: bool,
}

impl View for Highlighter {
    type V = State;

    closed spec fn view(&self) -> State {
        State {
            frames: self.stack@,
            counts: self.bindings_shadow_count@,
            hashes: self.bindings_shadow_count.hashes(),
            macro_call: self.current_macro_call,
            macro_rules: self.current_macro_rules,
            template: self.format_string_highlighter@,
            rules: self.macro_rules_highlighter@,
            inside_attribute: self.inside_attribute,
        }
    }
}

impl Highlighter {
    /// The part of the text to which the highlighting is restricted, if it
    /// is restricted.
    pub closed spec fn viewport(&self) -> Option<TextRange> {
        self.range_to_highlight
    }

    /// Whether name references that the semantic model does not resolve are
    /// highlighted by their syntax.
    pub closed spec fn syntactic(&self) -> bool {
        self.syntactic_name_ref_highlighting
    }

    pub open spec fn wf(&self) -> bool {
        self@.wf()
    }

    /// The driver before the first event of a walk.
    pub fn new(range_to_highlight: Option<TextRange>, syntactic_name_ref_highlighting: bool) -> (h:
        Highlighter)
        ensures
            h.wf(),
            h@ == State::initial(),
            h.viewport() == range_to_highlight,
            h.syntactic() == syntactic_name_ref_highlighting,
    {
        Highlighter {
            stack: HighlightedRangeStack::new(),
            bindings_shadow_count: ShadowCounts::new(),
            current_macro_call: None,
            current_macro_rules: None,
            format_string_highlighter: FormatStringHighlighter::new(),
            macro_rules_highlighter: MacroRulesHighlighter::new(),
            inside_attribute: false,
            range_to_highlight,
            syntactic_name_ref_highlighting,
        }
    }

    fn in_viewport(&self, range: TextRange) -> (b: bool)
        ensures
            b == in_view(self.viewport(), range),
    {
        match self.range_to_highlight {
            Some(view) => view.intersect(range).is_some(),
            None => true,
        }
    }

    /// Takes one event of the walk.
    pub fn process(&mut self, event: &WalkEvent)
        requires
            old(self).wf(),
            event.wf(),
            old(self)@.takes(*event, old(self).viewport(), old(self).syntactic()),
        ensures
            final(self).wf(),
            final(self)@ == old(self)@.after(*event, old(self).viewport(), old(self).syntactic()),
            final(self).viewport() == old(self).viewport(),
            final(self).syntactic() == old(self).syntactic(),
    {
        match event {
            WalkEvent::Enter(item) => self.enter(item),
            WalkEvent::Leave(item) => self.leave(item),
        }
    }

    /// Enters an element.
    pub fn enter(&mut self, item: &SourceElement)
        requires
            old(self).wf(),
            item.wf(),
            old(self)@.enters(*item, old(self).viewport(), old(self).syntactic()),
        ensures
            final(self).wf(),
            final(self)@ == old(self)@.entered(*item, old(self).viewport(), old(self).syntactic()),
            final(self).viewport() == old(self).viewport(),
            final(self).syntactic() == old(self).syntactic(),
    {
        let entered = self.try_enter(item);
        assert(entered);
    }

    /// Leaves an element.
    pub fn leave(&mut self, item: &SourceElement)
        requires
            old(self).wf(),
            item.wf(),
            old(self)@.leaves(*item, old(self).viewport()),
        ensures
            final(self).wf(),
            final(self)@ == old(self)@.left(*item, old(self).viewport()),
            final(self).viewport() == old(self).viewport(),
            final(self).syntactic() == old(self).syntactic(),
    {
        let left = self.try_leave(item);
        assert(left);
    }

    /// Takes one event of the walk if it can be taken, and says whether it
    /// was taken. Where it was not, the walk cannot be highlighted, and the
    /// driver is of no further use.
    pub fn try_process(&mut self, event: &WalkEvent) -> (ok: bool)
        requires
            old(self).wf(),
        ensures
            final(self).wf(),
            ok == (event.wf() && old(self)@.takes(*event, old(self).viewport(), old(self).syntactic())),
            ok ==> final(self)@ == old(self)@.after(
                *event,
                old(self).viewport(),
                old(self).syntactic(),
            ),
            final(self).viewport() == old(self).viewport(),
            final(self).syntactic() == old(self).syntactic(),
    {
        match event {
            WalkEvent::Enter(item) => item.is_wf() && self.try_enter(item),
            WalkEvent::Leave(item) => item.is_wf() && self.try_leave(item),
        }
    }

    /// Enters an element if it can be entered, and says whether it was.
    pub fn try_enter(&mut self, item: &SourceElement) -> (ok: bool)
        requires
            old(self).wf(),
            item.wf(),
        ensures
            final(self).wf(),
            ok == old(self)@.enters(*item, old(self).viewport(), old(self).syntactic()),
            ok ==> final(self)@ == old(self)@.entered(
                *item,
                old(self).viewport(),
                old(self).syntactic(),
            ),
            final(self).viewport() == old(self).viewport(),
            final(self).syntactic() == old(self).syntactic(),
    {
        self.stack.push();
        let range = item.element.range;
        let kind = item.element.kind;
        // An element out of view is not looked at.
        if !self.in_viewport(range) {
            return true;
        }
        let is_node = !item.element.is_token;
        if is_node && kind == SyntaxKind::MacroCall {
            match try_macro_call_range(&item.macro_call) {
                Some(Some(range)) => {
                    self.stack.add(
                        HighlightedRange {
                            range,
                            highlight: Highlight::new(HighlightTag::Symbol(SymbolKind::Macro)),
                            binding_hash: None,
                        },
                    );
                },
                Some(None) => (),
                None => return false,
            }
            self.current_macro_call = Some(range);
            return true;
        }
        if is_node && kind == SyntaxKind::MacroRules {
            self.macro_rules_highlighter.init();
            self.current_macro_rules = Some(range);
            return true;
        }
        if is_node && kind == SyntaxKind::Attr {
            self.inside_attribute = true;
        }
        if self.current_macro_rules.is_some() && item.element.is_token {
            if !self.macro_rules_highlighter.can_advance(kind) {
                return false;
            }
            self.macro_rules_highlighter.advance(kind);
        }
        let element_to_highlight: &Element = if self.current_macro_call.is_some() && kind
            != SyntaxKind::Comment {
            // Inside a macro call the arguments are highlighted as what
            // they expand to.
            if !(item.element.is_token && item.element.has_parent(SyntaxKind::TokenTree)) {
                return true;
            }
            match &item.descent {
                Some(descent) => {
                    self.format_string_highlighter.check_for_format_string(&descent.token);
                    if descent.token.kind == SyntaxKind::Ident && (descent.parent.kind
                        == SyntaxKind::Name || descent.parent.kind == SyntaxKind::NameRef) {
                        &descent.parent
                    } else {
                        &descent.token
                    }
                },
                None => {
                    self.format_string_highlighter.check_for_format_string(&item.element);
                    &item.element
                },
            }
        } else {
            &item.element
        };
        if item.element.is_token && kind == SyntaxKind::String && item.element.facts.is_raw {
            if !element_to_highlight.is_token {
                return false;
            }
            if let Some(ranges) = &item.injection {
                self.stack.add_all(ranges);
                return true;
            }
        }
        self.try_classify(range, element_to_highlight)
    }

    /// Classifies `target` and adds its ranges if that can be done, and says
    /// whether it was done.
    fn try_classify(&mut self, range: TextRange, target: &Element) -> (ok: bool)
        requires
            old(self).wf(),
            range.wf(),
        ensures
            final(self).wf(),
            ok == old(self)@.classifies(range, *target, old(self).syntactic()),
            ok ==> final(self)@ == old(self)@.classified(range, *target, old(self).syntactic()),
            final(self).viewport() == old(self).viewport(),
            final(self).syntactic() == old(self).syntactic(),
    {
        if !is_countable(target, &self.bindings_shadow_count) {
            return false;
        }
        if let Some((highlight, binding_hash)) = highlight_element(
            &mut self.bindings_shadow_count,
            self.syntactic_name_ref_highlighting,
            target,
        ) {
            let highlight = highlight.with_if(self.inside_attribute, HighlightModifier::Attribute);
            if self.macro_rules_highlighter.highlight(target).is_none() {
                self.stack.add(HighlightedRange { range, highlight, binding_hash });
            }
            if target.is_token && target.kind == SyntaxKind::String {
                if !self.format_string_highlighter.try_highlight_format_string(
                    &mut self.stack,
                    target,
                    range,
                ) {
                    return false;
                }
                return try_highlight_escapes(&mut self.stack, target, range);
            }
        }
        true
    }

    /// Leaves an element if it can be left, and says whether it was.
    pub fn try_leave(&mut self, item: &SourceElement) -> (ok: bool)
        requires
            old(self).wf(),
            item.wf(),
        ensures
            final(self).wf(),
            ok == old(self)@.leaves(*item, old(self).viewport()),
            ok ==> final(self)@ == old(self)@.left(*item, old(self).viewport()),
            final(self).viewport() == old(self).viewport(),
            final(self).syntactic() == old(self).syntactic(),
    {
        if !self.stack.try_pop() {
            return false;
        }
        let range = item.element.range;
        if !self.in_viewport(range) {
            return true;
        }
        let is_node = !item.element.is_token;
        let kind = item.element.kind;
        if is_node && kind == SyntaxKind::MacroCall {
            let at_hand = match self.current_macro_call {
                Some(current) => current == range,
                None => false,
            };
            if !at_hand {
                return false;
            }
            self.current_macro_call = None;
            self.format_string_highlighter = FormatStringHighlighter::new();
        }
        if is_node && kind == SyntaxKind::MacroRules {
            let at_hand = match self.current_macro_rules {
                Some(current) => current == range,
                None => false,
            };
            if !at_hand {
                return false;
            }
            self.current_macro_rules = None;
            self.macro_rules_highlighter = MacroRulesHighlighter::new();
        }
        if is_node {
            if kind == SyntaxKind::Attr {
                self.inside_attribute = false;
            }
            if let Some(docs) = &item.doc_injection {
                highlight_doc_comment(docs, &mut self.stack);
            }
        }
        true
    }

    /// The highlighted ranges, if the walk is over and has left no overlap.
    pub fn try_finish(self) -> (res: Option<Vec<HighlightedRange>>)
        requires
            self.wf(),
        ensures
            res is Some == (self@.frames.len() == 1 && adjacent_disjoint(
                sorted_by_start(self@.frames[0]),
            )),
            res matches Some(ranges) ==> {
                &&& ranges@ == sorted_by_start(self@.frames[0])
                &&& all_wf(ranges@)
                &&& sorted(ranges@)
                &&& disjoint_sorted(ranges@)
            },
    {
        self.stack.try_flattened()
    }

    /// The highlighted ranges, when the walk is over.
    pub fn finish(self) -> (res: Vec<HighlightedRange>)
        requires
            self.wf(),
            self@.frames.len() == 1,
            adjacent_disjoint(sorted_by_start(self@.frames[0])),
        ensures
            res@ == sorted_by_start(self@.frames[0]),
            all_wf(res@),
            sorted(res@),
            disjoint_sorted(res@),
    {
        self.stack.flattened()
    }
}

/// Highlights the walk of a tree: the result holds a range for each element
/// in view that has a highlight, cut up where the ranges of elements inside
/// it lie, for each string literal the ranges of its format specifiers and
/// escape sequences, and the ranges of injected code. The ranges are sorted
/// by start, and no two of them overlap.
pub fn highlight(
    events: &Vec<WalkEvent>,
    range_to_highlight: Option<TextRange>,
    syntactic_name_ref_highlighting: bool,
) -> (res: Vec<HighlightedRange>)
    requires
        sound(events@, range_to_highlight, syntactic_name_ref_highlighting),
    ensures
        res@ == highlighted(events@, range_to_highlight, syntactic_name_ref_highlighting),
        all_wf(res@),
        sorted(res@),
        disjoint_sorted(res@),
{
    try_highlight(events, range_to_highlight, syntactic_name_ref_highlighting).unwrap()
}

/// Takes the event at `i` of a walk, after the events before it, if it can
/// be taken, and says whether it was.
fn try_step(highlighter: &mut Highlighter, events: &Vec<WalkEvent>, i: usize) -> (ok: bool)
    requires
        i < events@.len(),
        old(highlighter).wf(),
        old(highlighter)@ == run(
            events@.take(i as int),
            old(highlighter).viewport(),
            old(highlighter).syntactic(),
        ),
    ensures
        final(highlighter).wf(),
        final(highlighter).viewport() == old(highlighter).viewport(),
        final(highlighter).syntactic() == old(highlighter).syntactic(),
        ok == step_ok(events@, i as int, old(highlighter).viewport(), old(highlighter).syntactic()),
        ok ==> final(highlighter)@ == run(
            events@.take(i + 1),
            old(highlighter).viewport(),
            old(highlighter).syntactic(),
        ),
{
    proof {
        let grown = events@.take(i + 1);
        assert(grown.last() == events@[i as int]);
        assert(grown.drop_last() =~= events@.take(i as int));
        reveal(step_ok);
    }
    highlighter.try_process(&events[i])
}

/// Highlights the walk of a tree as `highlight` does if the walk can be
/// highlighted, and yields nothing if it cannot: if an element is left that
/// was not entered, if a macro call or macro definition that is left is not
/// the one at hand, if a range would have to be split by one that does not
/// lie within it, if a count or an offset would run over, or if ranges
/// overlap in the end.
pub fn try_highlight(
    events: &Vec<WalkEvent>,
    range_to_highlight: Option<TextRange>,
    syntactic_name_ref_highlighting: bool,
) -> (res: Option<Vec<HighlightedRange>>)
    ensures
        res is Some == sound(events@, range_to_highlight, syntactic_name_ref_highlighting),
        res matches Some(ranges) ==> {
            &&& ranges@ == highlighted(events@, range_to_highlight, syntactic_name_ref_highlighting)
            &&& all_wf(ranges@)
            &&& sorted(ranges@)
            &&& disjoint_sorted(ranges@)
        },
{
    let mut highlighter = Highlighter::new(range_to_highlight, syntactic_name_ref_highlighting);
    let mut i: usize = 0;
    assert(events@.take(0) =~= Seq::<WalkEvent>::empty());
    while i < events.len()
        invariant
            0 <= i <= events@.len(),
            highlighter.wf(),
            highlighter.viewport() == range_to_highlight,
            highlighter.syntactic() == syntactic_name_ref_highlighting,
            highlighter@ == run(
                events@.take(i as int),
                range_to_highlight,
                syntactic_name_ref_highlighting,
            ),
            forall|k: int|
                0 <= k < i ==> #[trigger] step_ok(
                    events@,
                    k,
                    range_to_highlight,
                    syntactic_name_ref_highlighting,
                ),
        decreases events@.len() - i,
    {
        if !try_step(&mut highlighter, events, i) {
            return None;
        }
        i += 1;
    }
    assert(events@.take(i as int) =~= events@);
    highlighter.try_finish()
}

/// The range of each escape sequence is the range of a piece of the
/// literal that is one, moved to where the literal stands: it lies within
/// the literal's range if the piece lies within the literal.
pub proof fn lemma_escape_ranges_within(pieces: Seq<CharPiece>, range: TextRange)
    requires
        range.wf(),
        forall|i: int|
            0 <= i < pieces.len() ==> (#[trigger] pieces[i]).range.wf() && pieces[i].range.end
                <= range.end - range.start,
    ensures
        forall|k: int|
            0 <= k < escape_ranges(pieces, range.start).len() ==> range.encloses(
                (#[trigger] escape_ranges(pieces, range.start)[k]).range,
            ) && exists|i: int|
                0 <= i < pieces.len() && is_escape(pieces[i]) && escape_ranges(
                    pieces,
                    range.start,
                )[k] == escape_range(#[trigger] pieces[i], range.start),
    decreases pieces.len(),
{
    if pieces.len() > 0 {
        let init = pieces.drop_last();
        assert forall|i: int| 0 <= i < init.len() implies (#[trigger] init[i]).range.wf()
            && init[i].range.end <= range.end - range.start by {
            assert(init[i] == pieces[i]);
        }
        lemma_escape_ranges_within(init, range);
        let res = escape_ranges(pieces, range.start);
        let before = escape_ranges(init, range.start);
        assert forall|k: int| 0 <= k < res.len() implies range.encloses((#[trigger] res[k]).range)
            && exists|i: int|
            0 <= i < pieces.len() && is_escape(pieces[i]) && res[k] == escape_range(
                #[trigger] pieces[i],
                range.start,
            ) by {
            if k < before.len() {
                assert(res[k] == before[k]);
                let i = choose|i: int|
                    0 <= i < init.len() && is_escape(init[i]) && before[k] == escape_range(
                        #[trigger] init[i],
                        range.start,
                    );
                assert(init[i] == pieces[i]);
            } else {
                assert(res[k] == escape_range(pieces.last(), range.start));
                assert(pieces[pieces.len() - 1].range.wf());
            }
        }
    }
}

/// An element out of view adds nothing and changes nothing: entering it
/// opens a frame and leaving it merges that frame, and the rest of the
/// state stays as it is.
pub proof fn lemma_out_of_view(
    state: State,
    event: WalkEvent,
    viewport: Option<TextRange>,
    syntactic: bool,
)
    requires
        !in_view(viewport, event.item().element.range),
    ensures
        state.after(event, viewport, syntactic) == (State {
            frames: match event {
                WalkEvent::Enter(_) => pushed(state.frames),
                WalkEvent::Leave(_) => popped(state.frames),
            },
            ..state
        }),
{
}

/// An element in view is taken as it is taken without a viewport: the
/// viewport decides which elements are looked at, and nothing else.
pub proof fn lemma_in_view_as_without(
    state: State,
    event: WalkEvent,
    viewport: Option<TextRange>,
    syntactic: bool,
)
    requires
        in_view(viewport, event.item().element.range),
    ensures
        state.takes(event, viewport, syntactic) == state.takes(event, None, syntactic),
        state.after(event, viewport, syntactic) == state.after(event, None, syntactic),
{
}

/// Without a viewport every element is in view, and with one exactly the
/// elements whose range meets it, be it in a single offset.
pub proof fn lemma_in_view(viewport: Option<TextRange>, range: TextRange)
    requires
        range.wf(),
        viewport matches Some(view) ==> view.wf(),
    ensures
        in_view(viewport, range) <==> (viewport matches Some(view) ==> view.meets(range)),
{
}

/// No element is highlighted in part: the range that is added for an
/// element when it is classified is the whole range of the element in the
/// source text.
pub proof fn lemma_own_range_is_whole(
    state: State,
    range: TextRange,
    target: Element,
    syntactic: bool,
)
    requires
        state.frames.len() >= 1,
    ensures
        state.own_frames(range, target, syntactic) == state.frames || (state.own_frames(
            range,
            target,
            syntactic,
        ).last() == state.frames.last().push(
            state.own_frames(range, target, syntactic).last().last(),
        ) && state.own_frames(range, target, syntactic).last().last().range == range),
{
}

/// The result is a function of the walk, of the viewport and of the choice
/// to go by syntax: the same events give the same ranges, with the same
/// tags, modifiers and binding hashes.
pub proof fn lemma_deterministic(
    events: Seq<WalkEvent>,
    again: Seq<WalkEvent>,
    viewport: Option<TextRange>,
    syntactic: bool,
)
    requires
        events == again,
    ensures
        highlighted(events, viewport, syntactic) == highlighted(again, viewport, syntactic),
{
}

/// Whether the escape sequences among `pieces` are not empty, lie within a
/// literal that stands at `range`, and follow one another.
pub open spec fn escapes_in_order(pieces: Seq<CharPiece>, range: TextRange) -> bool {
    &&& forall|i: int|
        0 <= i < pieces.len() && is_escape(#[trigger] pieces[i]) ==> pieces[i].range.start
            < pieces[i].range.end && pieces[i].range.end <= range.end - range.start
    &&& forall|i: int, j: int|
        0 <= i < j < pieces.len() && is_escape(#[trigger] pieces[i]) && is_escape(
            #[trigger] pieces[j],
        ) ==> pieces[i].range.end <= pieces[j].range.start
}

/// Whether `range` is the range of one of the escape sequences among
/// `pieces`, for a literal that starts at `start`.
pub open spec fn is_escape_of(range: HighlightedRange, pieces: Seq<CharPiece>, start: u32) -> bool {
    exists|i: int|
        0 <= i < pieces.len() && is_escape(pieces[i]) && range == escape_range(
            #[trigger] pieces[i],
            start,
        )
}

/// The ranges of escape sequences that are in order are in order too: they
/// are not empty, lie within the literal, and follow one another.
pub proof fn lemma_escape_ranges_in_order(pieces: Seq<CharPiece>, range: TextRange)
    requires
        range.wf(),
        escapes_in_order(pieces, range),
    ensures
        solid(escape_ranges(pieces, range.start)),
        disjoint_sorted(escape_ranges(pieces, range.start)),
        all_within(escape_ranges(pieces, range.start), range),
        forall|k: int|
            0 <= k < escape_ranges(pieces, range.start).len() ==> is_escape_of(
                #[trigger] escape_ranges(pieces, range.start)[k],
                pieces,
                range.start,
            ),
    decreases pieces.len(),
{
    if pieces.len() > 0 {
        let init = pieces.drop_last();
        let last = pieces.last();
        assert(escapes_in_order(init, range)) by {
            assert forall|i: int| 0 <= i < init.len() && is_escape(
                #[trigger] init[i],
            ) implies init[i].range.start < init[i].range.end && init[i].range.end <= range.end
                - range.start by {
                assert(init[i] == pieces[i]);
            }
            assert forall|i: int, j: int|
                0 <= i < j < init.len() && is_escape(#[trigger] init[i]) && is_escape(
                    #[trigger] init[j],
                ) implies init[i].range.end <= init[j].range.start by {
                assert(init[i] == pieces[i]);
                assert(init[j] == pieces[j]);
            }
        }
        lemma_escape_ranges_in_order(init, range);
        let before = escape_ranges(init, range.start);
        let res = escape_ranges(pieces, range.start);
        assert forall|k: int| 0 <= k < res.len() implies is_escape_of(
            #[trigger] res[k],
            pieces,
            range.start,
        ) by {
            if k < before.len() {
                assert(res[k] == before[k]);
                assert(is_escape_of(before[k], init, range.start));
                let i = choose|i: int|
                    0 <= i < init.len() && is_escape(init[i]) && before[k] == escape_range(
                        #[trigger] init[i],
                        range.start,
                    );
                assert(init[i] == pieces[i]);
            } else {
                assert(res[k] == escape_range(pieces[pieces.len() - 1], range.start));
            }
        }
        if is_escape(last) {
            assert(pieces[pieces.len() - 1] == last);
            let added = escape_range(last, range.start);
            assert(res == before.push(added));
            assert forall|k: int| 0 <= k < res.len() implies (#[trigger] res[k]).range.start
                < res[k].range.end && range.encloses(res[k].range) by {
                if k < before.len() {
                    assert(res[k] == before[k]);
                }
            }
            assert forall|i: int, j: int| 0 <= i < j < res.len() implies (
            #[trigger] res[i]).range.end <= (#[trigger] res[j]).range.start by {
                if j < before.len() {
                    assert(res[i] == before[i]);
                    assert(res[j] == before[j]);
                } else {
                    assert(res[i] == before[i]);
                    assert(is_escape_of(before[i], init, range.start));
                    let at = choose|at: int|
                        0 <= at < init.len() && is_escape(init[at]) && before[i] == escape_range(
                            #[trigger] init[at],
                            range.start,
                        );
                    assert(init[at] == pieces[at]);
                    assert(pieces[at].range.end <= pieces[pieces.len() - 1].range.start);
                }
            }
        }
    }
}

/// The escape sequences of a string literal that are in order can be
/// highlighted in a frame that is in order, if each lies within a range of
/// that frame; and they leave the frame in order: its ranges are not empty,
/// lie within the literal, and follow one another.
pub proof fn lemma_escapes_settle(frames: Seq<Frame>, string: Element, range: TextRange)
    requires
        frames.len() >= 1,
        range.wf(),
        solid(frames.last()),
        disjoint_sorted(frames.last()),
        all_within(frames.last(), range),
        string.facts.char_ranges matches Some(pieces) ==> escapes_in_order(pieces@, range)
            && each_enclosed(frames.last(), escape_ranges(pieces@, range.start)),
    ensures
        escapes_fit(string, range),
        with_escapes(frames, string, range).len() == frames.len(),
        with_escapes(frames, string, range).drop_last() == frames.drop_last(),
        solid(with_escapes(frames, string, range).last()),
        disjoint_sorted(with_escapes(frames, string, range).last()),
        all_within(with_escapes(frames, string, range).last(), range),
{
    match string.facts.char_ranges {
        Some(pieces) => {
            let own = frames.last();
            let escapes = escape_ranges(pieces@, range.start);
            lemma_escape_ranges_in_order(pieces@, range);
            let opened = added_all(pushed(frames), escapes);
            assert(opened =~= frames.push(escapes));
            assert(opened[opened.len() - 2] == own);
            assert(opened[opened.len() - 1] == escapes);
            assert(crate::range_stack::sorted(own)) by {
                assert forall|i: int, j: int| 0 <= i < j < own.len() implies (
                #[trigger] own[i]).range.start <= (#[trigger] own[j]).range.start by {
                    assert(own[i].range.start < own[i].range.end);
                }
            }
            lemma_sorted_by_start_of_sorted(own);
            assert(crate::range_stack::sorted(escapes)) by {
                assert forall|i: int, j: int| 0 <= i < j < escapes.len() implies (
                #[trigger] escapes[i]).range.start <= (#[trigger] escapes[j]).range.start by {
                    assert(escapes[i].range.start < escapes[i].range.end);
                }
            }
            lemma_sorted_by_start_of_sorted(escapes);
            lemma_injected_all_disjoint(own, escapes, None, range);
            assert(opened.drop_last().drop_last() =~= frames.drop_last());
            assert forall|i: int|
                0 <= i < pieces@.len() && is_escape(#[trigger] pieces@[i]) implies pieces@[i].range.wf()
                && pieces@[i].range.end + range.start <= u32::MAX by {}
        },
        None => {},
    }
}

/// Whether each escape sequence among `chars` lies within each of `pieces`
/// that it shares an offset with.
pub open spec fn escapes_respect(chars: Seq<CharPiece>, pieces: Seq<crate::element::FormatPiece>) -> bool {
    forall|i: int, j: int|
        0 <= i < chars.len() && 0 <= j < pieces.len() && is_escape(#[trigger] chars[i]) ==> (
        #[trigger] pieces[j]).range.encloses(chars[i].range) || chars[i].range.end
            <= pieces[j].range.start || pieces[j].range.end <= chars[i].range.start
}

/// Whether the parts of a string literal that stands at `range` are in
/// order: the pieces of its format string follow one another within it, so
/// do its escape sequences, and no escape sequence lies across the border
/// of a piece.
pub open spec fn string_in_order(string: Element, range: TextRange) -> bool {
    &&& crate::format::pieces_in_order(string.facts.format_pieces@, range)
    &&& string.facts.char_ranges matches Some(chars) ==> escapes_in_order(chars@, range)
        && escapes_respect(chars@, string.facts.format_pieces@)
}

/// The format specifiers and escape sequences of a string literal whose
/// parts are in order can be highlighted in the frame that holds the range
/// of the literal, whatever the template is; and they leave that frame in
/// order: its ranges are not empty, lie within the literal, and follow one
/// another.
pub proof fn lemma_string_settles(
    frames: Seq<Frame>,
    template: Option<TextRange>,
    string: Element,
    range: TextRange,
    own: HighlightedRange,
)
    requires
        frames.len() >= 1,
        frames.last() == seq![own],
        own.range == range,
        range.start < range.end,
        string_in_order(string, range),
    ensures
        format_fits(frames, template, string, range),
        escapes_fit(string, range),
        ({
            let res = with_escapes(with_format(frames, template, string, range), string, range);
            &&& res.len() == frames.len()
            &&& res.drop_last() == frames.drop_last()
            &&& solid(res.last())
            &&& disjoint_sorted(res.last())
            &&& all_within(res.last(), range)
        }),
{
    crate::format::lemma_format_settles(frames, template, string, range, own);
    let formatted = with_format(frames, template, string, range);
    let pieces = string.facts.format_pieces@;
    let ranges = crate::format::format_ranges(pieces, range.start);
    match string.facts.char_ranges {
        Some(chars) => {
            let escapes = escape_ranges(chars@, range.start);
            lemma_escape_ranges_in_order(chars@, range);
            assert forall|k: int| 0 <= k < escapes.len() implies exists|i: int|
                0 <= i < formatted.last().len() && (#[trigger] formatted.last()[i]).range.encloses(
                    (#[trigger] escapes[k]).range,
                ) by {
                let inner = escapes[k].range;
                assert(range.encloses(inner));
                assert(inner.start < inner.end);
                if template == Some(string.range) && ranges.len() > 0 {
                    assert(is_escape_of(escapes[k], chars@, range.start));
                    let at = choose|at: int|
                        0 <= at < chars@.len() && is_escape(chars@[at]) && escapes[k]
                            == escape_range(#[trigger] chars@[at], range.start);
                    assert(crate::range_stack::crosses_none(ranges, inner)) by {
                        assert forall|j: int| 0 <= j < ranges.len() implies (
                        #[trigger] ranges[j]).range.encloses(inner) || inner.end
                            <= ranges[j].range.start || ranges[j].range.end <= inner.start by {
                            assert(pieces[j].range.encloses(chars@[at].range) || chars@[at].range.end
                                <= pieces[j].range.start || pieces[j].range.end
                                <= chars@[at].range.start);
                            assert(pieces[j].range.start < pieces[j].range.end);
                        }
                    }
                    assert(crate::range_stack::splits(own.range, ranges)) by {
                        assert(range.encloses(ranges[0].range));
                        assert forall|i: int|
                            0 <= i < ranges.len() implies (#[trigger] ranges[i]).range.end
                            <= own.range.end by {
                            assert(range.encloses(ranges[i].range));
                        }
                    }
                    assert(own.range.encloses(ranges[0].range));
                    assert(crate::range_stack::needs_flattening(seq![own], ranges));
                    let split = crate::range_stack::split_around(own, ranges);
                    assert(crate::range_stack::merged(seq![own], ranges) =~= split);
                    crate::range_stack::lemma_split_encloses(own, ranges, inner);
                } else {
                    assert(formatted.last() =~= seq![own]);
                    assert(formatted.last()[0].range.encloses(inner));
                }
            }
        },
        None => {},
    }
    lemma_escapes_settle(formatted, string, range);
}

/// Whether the code of documentation comments and the comment markers are
/// in order: the ranges of the code are not empty and follow one another,
/// so do the markers, and no marker shares an offset with a range of the
/// code.
pub open spec fn docs_in_order(docs: DocInjection) -> bool {
    &&& solid(docs.code@)
    &&& disjoint_sorted(docs.code@)
    &&& solid(docs.comments@)
    &&& disjoint_sorted(docs.comments@)
    &&& all_clear(docs.code@, docs.comments@)
}

/// Whether each range of the code and each marker lies within a range of
/// `frame`, and has ended where the walk has come to.
pub open spec fn docs_enclosed(frame: Frame, docs: DocInjection, cursor: u32) -> bool {
    &&& each_enclosed(frame, docs.code@)
    &&& each_enclosed(frame, docs.comments@)
    &&& forall|k: int| 0 <= k < docs.code@.len() ==> (#[trigger] docs.code@[k]).range.end <= cursor
    &&& forall|k: int|
        0 <= k < docs.comments@.len() ==> (#[trigger] docs.comments@[k]).range.end <= cursor
}

/// The markers injected into the code: a frame in order, whose ranges lie
/// where those of the code and the markers lie.
proof fn lemma_markers_injected(docs: DocInjection)
    requires
        docs_in_order(docs),
    ensures
        sorted_by_start(marked(docs.code@)) == marked(docs.code@),
        sorted_by_start(docs.comments@) == docs.comments@,
        solid(crate::range_stack::injected_all(marked(docs.code@), docs.comments@, None)),
        disjoint_sorted(crate::range_stack::injected_all(marked(docs.code@), docs.comments@, None)),
        drawn_from(
            crate::range_stack::injected_all(marked(docs.code@), docs.comments@, None),
            docs.code@,
            docs.comments@,
        ),
{
    let code = marked(docs.code@);
    let markers = docs.comments@;
    assert forall|k: int| 0 <= k < code.len() implies (#[trigger] code[k]).range
        == docs.code@[k].range by {}
    assert(solid(code)) by {
        assert forall|k: int| 0 <= k < code.len() implies (#[trigger] code[k]).range.start
            < code[k].range.end by {
            assert(docs.code@[k].range.start < docs.code@[k].range.end);
        }
    }
    assert(disjoint_sorted(code)) by {
        assert forall|i: int, j: int| 0 <= i < j < code.len() implies (
        #[trigger] code[i]).range.end <= (#[trigger] code[j]).range.start by {
            assert(docs.code@[i].range.end <= docs.code@[j].range.start);
        }
    }
    assert(all_clear(code, markers)) by {
        assert forall|k: int| 0 <= k < markers.len() implies crate::range_stack::clear_of(
            code,
            (#[trigger] markers[k]).range,
        ) by {
            assert(crate::range_stack::clear_of(docs.code@, markers[k].range));
            assert forall|i: int| 0 <= i < code.len() implies (#[trigger] code[i]).range.end
                <= markers[k].range.start || markers[k].range.end <= code[i].range.start by {
                assert(docs.code@[i].range.end <= markers[k].range.start || markers[k].range.end
                    <= docs.code@[i].range.start);
            }
        }
    }
    lemma_solid_is_sorted(code);
    lemma_solid_is_sorted(markers);
    lemma_injected_all_clear(code, markers);
    let res = crate::range_stack::injected_all(code, markers, None);
    assert forall|k: int| 0 <= k < res.len() implies holds(docs.code@, (#[trigger] res[k]).range)
        || holds(markers, res[k].range) by {
        if holds(code, res[k].range) {
            let at = choose|at: int| 0 <= at < code.len() && (#[trigger] code[at]).range
                == res[k].range;
            assert(docs.code@[at].range == res[k].range);
        }
    }
}

/// A frame in order, with no empty range, is sorted as it is.
proof fn lemma_solid_is_sorted(frame: Frame)
    requires
        solid(frame),
        disjoint_sorted(frame),
    ensures
        sorted_by_start(frame) == frame,
{
    assert forall|i: int, j: int| 0 <= i < j < frame.len() implies (#[trigger] frame[i]).range.start
        <= (#[trigger] frame[j]).range.start by {
        assert(frame[i].range.start < frame[i].range.end);
    }
    lemma_sorted_by_start_of_sorted(frame);
}

/// The frame that the code of documentation comments is injected into,
/// with the markers, after the first of the two injections.
proof fn lemma_docs_frames(frames: Seq<Frame>, docs: DocInjection)
    requires
        frames.len() >= 1,
        docs_in_order(docs),
    ensures
        popped_and_injected(doc_frames(frames, docs), None) == frames.push(
            crate::range_stack::injected_all(marked(docs.code@), docs.comments@, None),
        ),
{
    lemma_markers_injected(docs);
    let opened = doc_frames(frames, docs);
    assert(opened =~= frames.push(marked(docs.code@)).push(docs.comments@));
    assert(opened[opened.len() - 2] == marked(docs.code@));
    assert(opened[opened.len() - 1] == docs.comments@);
    assert(opened.drop_last().drop_last() =~= frames);
}

/// The code of documentation comments that is in order, injected into a
/// settled frame, leaves the frame settled, if each of its ranges and each
/// marker lies within a range of the frame and has ended.
pub proof fn lemma_docs_settle(
    frames: Seq<Frame>,
    docs: DocInjection,
    cursor: u32,
    span: TextRange,
    reach: u32,
)
    requires
        frames.len() >= 1,
        settled_to(frames.last(), cursor, span, reach),
        docs_in_order(docs),
        docs_enclosed(frames.last(), docs, cursor),
    ensures
        with_docs(frames, docs).len() == frames.len(),
        with_docs(frames, docs).drop_last() == frames.drop_last(),
        settled_to(with_docs(frames, docs).last(), cursor, span, reach),
{
    let top = frames.last();
    let both = crate::range_stack::injected_all(marked(docs.code@), docs.comments@, None);
    lemma_markers_injected(docs);
    lemma_docs_frames(frames, docs);
    lemma_solid_is_sorted(both);
    lemma_solid_is_sorted(top);
    lemma_both_enclosed(top, docs, cursor);
    lemma_injected_all_settled(top, both, Some(injected_highlight()), cursor, span, reach);
    let injected = frames.push(both);
    assert(injected[injected.len() - 2] == top);
    assert(injected[injected.len() - 1] == both);
    assert(injected.drop_last().drop_last() =~= frames.drop_last());
    assert(with_docs(frames, docs).drop_last() =~= frames.drop_last());
}

/// The code with the markers lies within the ranges of a frame that the
/// code and the markers lie within.
proof fn lemma_both_enclosed(top: Frame, docs: DocInjection, cursor: u32)
    requires
        docs_in_order(docs),
        docs_enclosed(top, docs, cursor),
    ensures
        each_enclosed(
            top,
            crate::range_stack::injected_all(marked(docs.code@), docs.comments@, None),
        ),
        forall|k: int|
            0 <= k < crate::range_stack::injected_all(
                marked(docs.code@),
                docs.comments@,
                None,
            ).len() ==> (#[trigger] crate::range_stack::injected_all(
                marked(docs.code@),
                docs.comments@,
                None,
            )[k]).range.end <= cursor,
{
    let both = crate::range_stack::injected_all(marked(docs.code@), docs.comments@, None);
    lemma_markers_injected(docs);
    assert forall|k: int| 0 <= k < both.len() implies (exists|i: int|
        0 <= i < top.len() && (#[trigger] top[i]).range.encloses((#[trigger] both[k]).range))
        && both[k].range.end <= cursor by {
        if holds(docs.code@, both[k].range) {
            let at = choose|at: int| 0 <= at < docs.code@.len() && (#[trigger] docs.code@[at]).range
                == both[k].range;
            let i = choose|i: int|
                0 <= i < top.len() && (#[trigger] top[i]).range.encloses(docs.code@[at].range);
            assert(top[i].range.encloses(both[k].range));
        } else {
            let at = choose|at: int|
                0 <= at < docs.comments@.len() && (#[trigger] docs.comments@[at]).range
                    == both[k].range;
            let i = choose|i: int|
                0 <= i < top.len() && (#[trigger] top[i]).range.encloses(docs.comments@[at].range);
            assert(top[i].range.encloses(both[k].range));
        }
    }
}

/// The injection of the code of documentation comments keeps the ranges of
/// the frame that enclose no range of the code and no marker.
pub proof fn lemma_docs_keep(
    frames: Seq<Frame>,
    docs: DocInjection,
    cursor: u32,
    span: TextRange,
    reach: u32,
    range: TextRange,
)
    requires
        frames.len() >= 1,
        settled_to(frames.last(), cursor, span, reach),
        docs_in_order(docs),
        docs_enclosed(frames.last(), docs, cursor),
        holds(frames.last(), range),
        forall|k: int| 0 <= k < docs.code@.len() ==> !range.encloses((#[trigger] docs.code@[k]).range),
        forall|k: int|
            0 <= k < docs.comments@.len() ==> !range.encloses(
                (#[trigger] docs.comments@[k]).range,
            ),
    ensures
        holds(with_docs(frames, docs).last(), range),
{
    let top = frames.last();
    let both = crate::range_stack::injected_all(marked(docs.code@), docs.comments@, None);
    lemma_markers_injected(docs);
    lemma_docs_frames(frames, docs);
    lemma_solid_is_sorted(both);
    lemma_solid_is_sorted(top);
    lemma_both_enclosed(top, docs, cursor);
    assert forall|k: int| 0 <= k < both.len() implies !range.encloses((#[trigger] both[k]).range) by {
        if holds(docs.code@, both[k].range) {
            let at = choose|at: int| 0 <= at < docs.code@.len() && (#[trigger] docs.code@[at]).range
                == both[k].range;
        } else {
            let at = choose|at: int|
                0 <= at < docs.comments@.len() && (#[trigger] docs.comments@[at]).range
                    == both[k].range;
        }
    }
    lemma_injected_all_keeps(top, both, Some(injected_highlight()), range);
    let injected = frames.push(both);
    assert(injected[injected.len() - 2] == top);
    assert(injected[injected.len() - 1] == both);
}

/// The local that an event binds, if it binds one: the local that is bound
/// by the element which is classified where an item in view is entered.
pub open spec fn bound_by(state: State, event: WalkEvent, viewport: Option<TextRange>) -> Option<
    Local,
> {
    match event {
        WalkEvent::Enter(item) => if in_view(viewport, item.element.range) && !is_macro_call(item)
            && !is_macro_rules(item) && !is_injected_string(item) {
            match target_of(item, state.macro_call is Some) {
                Some(target) => bound_local(target),
                None => None,
            }
        } else {
            None
        },
        WalkEvent::Leave(_) => None,
    }
}

/// The binding of a local enters the hash that it is given: after the
/// binding is classified, the hash of its range is held for the place where
/// the local is declared.
pub proof fn lemma_binding_is_held(state: State, range: TextRange, binding: Element, syntactic: bool)
    requires
        bound_local(binding) is Some,
    ensures
        ({
            let place = bound_local(binding).unwrap().declaration;
            let after = state.classified(range, binding, syntactic);
            &&& after.hashes.contains_key(place)
            &&& Some(after.hashes[place]) == element_binding_hash(binding, state.counts, state.hashes)
        }),
{
}

/// The hash that a local was given stays with it to the end of the walk: an
/// event changes the hash that is held for a place only if it binds a
/// local that is declared at that place.
pub proof fn lemma_event_keeps_hash(
    state: State,
    event: WalkEvent,
    viewport: Option<TextRange>,
    syntactic: bool,
    place: TextRange,
)
    requires
        state.hashes.contains_key(place),
        bound_by(state, event, viewport) matches Some(local) ==> local.declaration != place,
    ensures
        state.after(event, viewport, syntactic).hashes.contains_key(place),
        state.after(event, viewport, syntactic).hashes[place] == state.hashes[place],
{
}

/// A reference is highlighted with the hash of its own declaration: the
/// range that is added for a reference to a local carries the hash that is
/// held for the place where the local is declared, whatever the count of
/// its name has become.
pub proof fn lemma_reference_takes_held_hash(
    state: State,
    range: TextRange,
    reference: Element,
    syntactic: bool,
)
    requires
        state.frames.len() >= 1,
        used_local(reference) is Some,
        state.hashes.contains_key(used_local(reference).unwrap().declaration),
        !in_rule_metavariable(state.rules, reference),
    ensures
        element_highlight(reference, syntactic) is Some,
        state.own_frames(range, reference, syntactic).last().len() > 0,
        state.own_frames(range, reference, syntactic).last().last().range == range,
        state.own_frames(range, reference, syntactic).last().last().binding_hash == Some(
            state.hashes[used_local(reference).unwrap().declaration],
        ),
        state.classified(range, reference, syntactic).hashes == state.hashes,
        forall|name: Seq<char>|
            count_of(state.classified(range, reference, syntactic).counts, name) == count_of(
                state.counts,
                name,
            ),
{
}

/// The local that an event refers to, if it refers to one: the local that
/// is meant by the element which is classified where an item in view is
/// entered.
pub open spec fn referred_by(state: State, event: WalkEvent, viewport: Option<TextRange>) -> Option<
    Local,
> {
    match event {
        WalkEvent::Enter(item) => if in_view(viewport, item.element.range) && !is_macro_call(item)
            && !is_macro_rules(item) && !is_injected_string(item) {
            match target_of(item, state.macro_call is Some) {
                Some(target) => used_local(target),
                None => None,
            }
        } else {
            None
        },
        WalkEvent::Leave(_) => None,
    }
}

/// The binding hash of the range that an event adds for the element
/// itself, if the element is classified.
pub open spec fn hash_at(state: State, event: WalkEvent, viewport: Option<TextRange>) -> Option<u64> {
    match event {
        WalkEvent::Enter(item) => if in_view(viewport, item.element.range) && !is_macro_call(item)
            && !is_macro_rules(item) && !is_injected_string(item) {
            match target_of(item, state.macro_call is Some) {
                Some(target) => element_binding_hash(target, state.counts, state.hashes),
                None => None,
            }
        } else {
            None
        },
        WalkEvent::Leave(_) => None,
    }
}

proof fn lemma_hash_is_held(
    events: Seq<WalkEvent>,
    i: int,
    n: int,
    viewport: Option<TextRange>,
    syntactic: bool,
)
    requires
        0 <= i < n <= events.len(),
        bound_by(run(events.take(i), viewport, syntactic), events[i], viewport) is Some,
        forall|k: int|
            i < k < n ==> (bound_by(
                run(events.take(k), viewport, syntactic),
                #[trigger] events[k],
                viewport,
            ) matches Some(other) ==> other.declaration != bound_by(
                run(events.take(i), viewport, syntactic),
                events[i],
                viewport,
            ).unwrap().declaration),
    ensures
        ({
            let first = run(events.take(i), viewport, syntactic);
            let place = bound_by(first, events[i], viewport).unwrap().declaration;
            let then = run(events.take(n), viewport, syntactic);
            &&& hash_at(first, events[i], viewport) is Some
            &&& then.hashes.contains_key(place)
            &&& Some(then.hashes[place]) == hash_at(first, events[i], viewport)
        }),
    decreases n - i,
{
    let first = run(events.take(i), viewport, syntactic);
    let upto = events.take(n);
    assert(upto.drop_last() =~= events.take(n - 1));
    assert(upto.last() == events[n - 1]);
    if n == i + 1 {
        let item = events[i].item();
        let opened = State { frames: pushed(first.frames), ..first.noted(item) };
        lemma_binding_is_held(
            opened,
            item.element.range,
            target_of(item, first.macro_call is Some).unwrap(),
            syntactic,
        );
    } else {
        lemma_hash_is_held(events, i, n - 1, viewport, syntactic);
        lemma_event_keeps_hash(
            run(events.take(n - 1), viewport, syntactic),
            events[n - 1],
            viewport,
            syntactic,
            bound_by(first, events[i], viewport).unwrap().declaration,
        );
    }
}

/// The hash of a binding is that of every reference to it: where a walk
/// binds a local and later refers to it, the range of the reference has
/// the binding hash that the range of the binding has, whatever lies
/// between the two, other bindings of the same name and function nodes
/// too, as long as no other local is bound at the place where this one is
/// declared.
pub proof fn lemma_reference_has_hash_of_binding(
    events: Seq<WalkEvent>,
    i: int,
    j: int,
    viewport: Option<TextRange>,
    syntactic: bool,
)
    requires
        0 <= i < j < events.len(),
        bound_by(run(events.take(i), viewport, syntactic), events[i], viewport) is Some,
        referred_by(run(events.take(j), viewport, syntactic), events[j], viewport) matches Some(
            local,
        ) && local.declaration == bound_by(
            run(events.take(i), viewport, syntactic),
            events[i],
            viewport,
        ).unwrap().declaration,
        forall|k: int|
            i < k < j ==> (bound_by(
                run(events.take(k), viewport, syntactic),
                #[trigger] events[k],
                viewport,
            ) matches Some(other) ==> other.declaration != bound_by(
                run(events.take(i), viewport, syntactic),
                events[i],
                viewport,
            ).unwrap().declaration),
    ensures
        hash_at(run(events.take(i), viewport, syntactic), events[i], viewport) is Some,
        hash_at(run(events.take(j), viewport, syntactic), events[j], viewport) == hash_at(
            run(events.take(i), viewport, syntactic),
            events[i],
            viewport,
        ),
{
    lemma_hash_is_held(events, i, j, viewport, syntactic);
}

/// A name among the arguments of a macro call is highlighted as what it
/// stands for in the expansion, at its own place in the source text: where
/// the token leads to the identifier of a reference to a local, the range
/// that is added is the range of the token itself, tagged as the local,
/// and `Consuming` where the expansion passes the local by value and it is
/// not `Copy`.
pub proof fn lemma_argument_is_highlighted_at_its_place(
    state: State,
    item: SourceElement,
    viewport: Option<TextRange>,
    syntactic: bool,
    local: Local,
)
    requires
        state.frames.len() >= 1,
        state.macro_call is Some,
        state.rules is None,
        !state.inside_attribute,
        in_view(viewport, item.element.range),
        is_argument_token(item),
        item.element.kind == SyntaxKind::Ident,
        item.descent matches Some(descent) && descent.token.kind == SyntaxKind::Ident
            && descent.parent.kind == SyntaxKind::NameRef && !descent.parent.within(SyntaxKind::Attr)
            && crate::classify::func_highlight(descent.parent) is None
            && descent.parent.facts.name_ref_class == Some(
            crate::element::NameRefClass::Definition(crate::element::Definition::Local(local)),
        ),
    ensures
        ({
            let after = state.entered(item, viewport, syntactic);
            let reference = item.descent.unwrap().parent;
            &&& after.frames == state.frames.push(seq![after.frames.last().last()])
            &&& after.frames.last().last().range == item.element.range
            &&& after.frames.last().last().highlight.tag == HighlightTag::Symbol(
                if local.is_param {
                    SymbolKind::ValueParam
                } else {
                    SymbolKind::Local
                },
            )
            &&& after.frames.last().last().highlight.has(HighlightModifier::Consuming)
                == crate::classify::consumed(reference.ancestors@, local)
        }),
{
    let reference = item.descent.unwrap().parent;
    crate::classify::lemma_consumed_local(reference, local, syntactic);
    let opened = State { frames: pushed(state.frames), ..state.noted(item) };
    assert(target_of(item, true) == Some(reference));
    assert(!is_macro_call(item) && !is_macro_rules(item) && !is_injected_string(item));
    let h = element_highlight(reference, syntactic).unwrap();
    let entry = HighlightedRange {
        range: item.element.range,
        highlight: h.plus_if(false, HighlightModifier::Attribute),
        binding_hash: element_binding_hash(reference, state.counts, state.hashes),
    };
    assert(opened.own_frames(item.element.range, reference, syntactic) =~= state.frames.push(
        seq![entry],
    ));
}

/// The name of a macro call is highlighted as a macro where the call is
/// entered: from the start of the name to the end of the `!`.
pub proof fn lemma_macro_name_is_highlighted(
    state: State,
    item: SourceElement,
    viewport: Option<TextRange>,
    syntactic: bool,
)
    requires
        state.frames.len() >= 1,
        in_view(viewport, item.element.range),
        is_macro_call(item),
        item.macro_call is Some,
    ensures
        state.entered(item, viewport, syntactic).frames == state.frames.push(
            seq![
                HighlightedRange {
                    range: call_range(item.macro_call.unwrap()),
                    highlight: symbol(SymbolKind::Macro),
                    binding_hash: None,
                },
            ],
        ),
        state.entered(item, viewport, syntactic).macro_call == Some(item.element.range),
{
    let entry = HighlightedRange {
        range: call_range(item.macro_call.unwrap()),
        highlight: symbol(SymbolKind::Macro),
        binding_hash: None,
    };
    assert(added(pushed(state.frames), entry) =~= state.frames.push(seq![entry]));
}

} // verus!
