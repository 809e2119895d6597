//! What is kept of every range through the merges and injections: a
//! property of the ranges that are added, which stays true of what is left
//! of a range where it is cut, is true of every range of the result.

use crate::classify::{
    def_highlight, element_binding_hash, element_highlight, func_highlight, keyword_highlight,
    lifetime_highlight, name_highlight, name_ref_highlight, name_ref_highlight_by_syntax,
    name_tag_by_syntax, parent_of, punct_highlight, self_local, symbol,
};
use crate::element::{CharPiece, Definition, Element, NameClass, NameRefClass};
use crate::format::{format_ranges, lemma_format_ranges_within, with_format};
use crate::highlight::{
    doc_frames, escape_range, escape_ranges, highlighted, in_view, injected_highlight, is_escape,
    is_injected_string, is_macro_call, is_macro_rules, marked, run, sound, step_ok, target_of,
    State,
};
use crate::macro_rules::in_rule_metavariable;
use crate::range_stack::{
    added, added_all, all_wf, can_pop, first_hit, injected, injected_all, lemma_first_hit,
    lemma_sorted_by_start, merged, mergeable, popped, popped_and_injected, pushed,
    sorted_by_start, split_around, splits, unless_empty, Frame, HighlightedRange, Probe,
};
use crate::syntax_kind::SyntaxKind;
use crate::tags::{Highlight, HighlightModifier, HighlightTag, SymbolKind};
use crate::text_range::TextRange;
use crate::walk::{call_range, SourceElement, WalkEvent};
use vstd::prelude::*;

verus! {

/// Whether `p` is true of each range of the frame.
pub open spec fn each(frame: Frame, p: spec_fn(HighlightedRange) -> bool) -> bool {
    forall|i: int| 0 <= i < frame.len() ==> p(#[trigger] frame[i])
}

/// Whether `p` is true of each range of each frame.
pub open spec fn each_of_all(frames: Seq<Frame>, p: spec_fn(HighlightedRange) -> bool) -> bool {
    forall|k: int| 0 <= k < frames.len() ==> each(#[trigger] frames[k], p)
}

/// Whether `p` is true only of ranges that are well formed, and stays true
/// of what is left of a range that is cut where another one starts or
/// ends: of the part before the start of the other, and of the part behind
/// its end.
pub open spec fn kept_in_parts(p: spec_fn(HighlightedRange) -> bool) -> bool {
    &&& forall|range: HighlightedRange| #[trigger] p(range) ==> range.range.wf()
    &&& forall|range: HighlightedRange, other: HighlightedRange|
        p(range) && p(other) && range.range.start <= other.range.start && other.range.start
            <= range.range.end ==> p(
            #[trigger] range.over(range.range.start, other.range.start),
        )
    &&& forall|range: HighlightedRange, other: HighlightedRange|
        p(range) && p(other) && range.range.start <= other.range.end && other.range.end
            <= range.range.end ==> p(#[trigger] range.over(other.range.end, range.range.end))
}

/// Whether `p` stays true of a range that takes the highlight `overwrite`,
/// if one is given.
pub open spec fn kept_under(p: spec_fn(HighlightedRange) -> bool, overwrite: Option<Highlight>) -> bool {
    overwrite matches Some(highlight) ==> forall|range: HighlightedRange|
        p(range) ==> p(#[trigger] range.retagged(highlight))
}

/// What is true of a range and of the children that it is split around is
/// true of all that comes out of the split.
pub proof fn lemma_split_keeps(
    parent: HighlightedRange,
    children: Frame,
    p: spec_fn(HighlightedRange) -> bool,
)
    requires
        kept_in_parts(p),
        p(parent),
        each(children, p),
        splits(parent.range, children),
    ensures
        each(split_around(parent, children), p),
    decreases children.len(),
{
    let res = split_around(parent, children);
    if children.len() > 0 {
        let child = children[0];
        assert(p(child));
        let before = parent.over(parent.range.start, child.range.start);
        let behind = parent.over(child.range.end, parent.range.end);
        let rest = children.drop_first();
        assert(p(before));
        assert(p(behind));
        assert forall|i: int| 0 <= i < rest.len() implies p(#[trigger] rest[i]) by {
            assert(rest[i] == children[i + 1]);
        }
        assert(splits(behind.range, rest)) by {
            if rest.len() > 0 {
                assert(rest[0] == children[1]);
            }
            assert forall|i: int| 0 <= i < rest.len() implies (#[trigger] rest[i]).range.end
                <= behind.range.end by {
                assert(rest[i] == children[i + 1]);
            }
            assert forall|i: int, j: int| 0 <= i && i + 1 == j && j < rest.len() implies (
            #[trigger] rest[i]).range.end <= (#[trigger] rest[j]).range.start by {
                assert(rest[i] == children[i + 1]);
                assert(rest[j] == children[j + 1]);
            }
        }
        lemma_split_keeps(behind, rest, p);
        let head = unless_empty(before).push(child);
        let tail = split_around(behind, rest);
        assert(res == head + tail);
        assert forall|i: int| 0 <= i < res.len() implies p(#[trigger] res[i]) by {
            if i < head.len() {
                assert(res[i] == head[i]);
            } else {
                assert(res[i] == tail[i - head.len()]);
            }
        }
    }
}

/// What is true of the ranges of two frames is true of the ranges of the
/// frame that one is merged into.
pub proof fn lemma_merged_keeps_each(prev: Frame, children: Frame, p: spec_fn(HighlightedRange) -> bool)
    requires
        kept_in_parts(p),
        each(prev, p),
        each(children, p),
        mergeable(prev, children),
    ensures
        each(merged(prev, children), p),
{
    let res = merged(prev, children);
    if crate::range_stack::needs_flattening(prev, children) {
        assert(p(prev[prev.len() - 1]));
        lemma_split_keeps(prev.last(), children, p);
        let mid = split_around(prev.last(), children);
        assert forall|i: int| 0 <= i < res.len() implies p(#[trigger] res[i]) by {
            if i < prev.len() - 1 {
                assert(res[i] == prev[i]);
            } else {
                assert(res[i] == mid[i - (prev.len() - 1)]);
            }
        }
    } else {
        assert forall|i: int| 0 <= i < res.len() implies p(#[trigger] res[i]) by {
            if i < prev.len() {
                assert(res[i] == prev[i]);
            } else {
                assert(res[i] == children[i - prev.len()]);
            }
        }
    }
}

/// What is true of every range is true of every range after a frame is
/// opened, after a range or several are added, and after the innermost
/// frame is merged into the one below it.
pub proof fn lemma_steps_keep_each(
    frames: Seq<Frame>,
    range: HighlightedRange,
    ranges: Frame,
    p: spec_fn(HighlightedRange) -> bool,
)
    requires
        kept_in_parts(p),
        each_of_all(frames, p),
    ensures
        each_of_all(pushed(frames), p),
        frames.len() >= 1 && p(range) ==> each_of_all(added(frames, range), p),
        frames.len() >= 1 && each(ranges, p) ==> each_of_all(added_all(frames, ranges), p),
        can_pop(frames) ==> each_of_all(popped(frames), p),
{
    assert forall|k: int| 0 <= k < pushed(frames).len() implies each(
        #[trigger] pushed(frames)[k],
        p,
    ) by {
        if k < frames.len() {
            assert(pushed(frames)[k] == frames[k]);
        }
    }
    if frames.len() >= 1 {
        assert(each(frames[frames.len() - 1], p));
        if p(range) {
            let res = added(frames, range);
            assert forall|k: int| 0 <= k < res.len() implies each(#[trigger] res[k], p) by {
                if k < frames.len() - 1 {
                    assert(res[k] == frames[k]);
                } else {
                    assert forall|i: int| 0 <= i < res[k].len() implies p(#[trigger] res[k][i]) by {
                        if i < frames.last().len() {
                            assert(res[k][i] == frames.last()[i]);
                        }
                    }
                }
            }
        }
        if each(ranges, p) {
            let res = added_all(frames, ranges);
            assert forall|k: int| 0 <= k < res.len() implies each(#[trigger] res[k], p) by {
                if k < frames.len() - 1 {
                    assert(res[k] == frames[k]);
                } else {
                    assert forall|i: int| 0 <= i < res[k].len() implies p(#[trigger] res[k][i]) by {
                        if i < frames.last().len() {
                            assert(res[k][i] == frames.last()[i]);
                        } else {
                            assert(res[k][i] == ranges[i - frames.last().len()]);
                        }
                    }
                }
            }
        }
    }
    if can_pop(frames) {
        let res = popped(frames);
        assert(each(frames[frames.len() - 2], p));
        assert(each(frames[frames.len() - 1], p));
        lemma_merged_keeps_each(frames[frames.len() - 2], frames[frames.len() - 1], p);
        assert forall|k: int| 0 <= k < res.len() implies each(#[trigger] res[k], p) by {
            if k < frames.len() - 2 {
                assert(res[k] == frames[k]);
            }
        }
    }
}

/// Sorting a frame keeps what is true of each of its ranges.
pub proof fn lemma_sorted_keeps_each(frame: Frame, p: spec_fn(HighlightedRange) -> bool)
    requires
        each(frame, p),
    ensures
        each(sorted_by_start(frame), p),
{
    lemma_sorted_by_start(frame);
    let res = sorted_by_start(frame);
    assert forall|i: int| 0 <= i < res.len() implies p(#[trigger] res[i]) by {
        res.to_multiset_ensures();
        frame.to_multiset_ensures();
        assert(res.contains(res[i]));
        assert(res.to_multiset().count(res[i]) > 0);
        assert(frame.to_multiset().count(res[i]) > 0);
        assert(frame.contains(res[i]));
        let k = choose|k: int| 0 <= k < frame.len() && frame[k] == res[i];
        assert(p(frame[k]));
    }
}

/// What is true of the ranges of a frame and of a child is true of the
/// ranges of the frame with the child injected, if it stays true of a range
/// that takes the replacement highlight.
pub proof fn lemma_injected_keeps_each(
    prev: Frame,
    child: HighlightedRange,
    overwrite: Option<Highlight>,
    p: spec_fn(HighlightedRange) -> bool,
)
    requires
        kept_in_parts(p),
        kept_under(p, overwrite),
        each(prev, p),
        p(child),
    ensures
        each(injected(prev, child, overwrite), p),
{
    let enclosing = first_hit(prev, Probe::Enclosing(child.range));
    let covering = first_hit(prev, Probe::Covering(child.range.start));
    let from = first_hit(prev, Probe::StartingFrom(child.range.start));
    lemma_first_hit(prev, Probe::Enclosing(child.range));
    lemma_first_hit(prev, Probe::Covering(child.range.start));
    lemma_first_hit(prev, Probe::StartingFrom(child.range.start));
    let res = injected(prev, child, overwrite);
    if enclosing < prev.len() {
        let parent = match overwrite {
            Some(highlight) => prev[enclosing].retagged(highlight),
            None => prev[enclosing],
        };
        assert(p(prev[enclosing]));
        assert(p(parent));
        let mid = split_around(parent, seq![child]);
        assert(each(seq![child], p));
        assert(splits(parent.range, seq![child]));
        lemma_split_keeps(parent, seq![child], p);
        assert forall|i: int| 0 <= i < res.len() implies p(#[trigger] res[i]) by {
            if i < enclosing {
                assert(res[i] == prev[i]);
            } else if i < enclosing + mid.len() {
                assert(res[i] == mid[i - enclosing]);
            } else {
                assert(res[i] == prev[i - mid.len() + 1]);
            }
        }
    } else if covering < prev.len() {
        let parent = prev[covering];
        assert(p(parent));
        assert(parent.range.covers(child.range.start));
        let cut = parent.over(parent.range.start, child.range.start);
        assert(p(cut));
        let mid = unless_empty(cut).push(child);
        assert forall|i: int| 0 <= i < res.len() implies p(#[trigger] res[i]) by {
            if i < covering {
                assert(res[i] == prev[i]);
            } else if i < covering + mid.len() {
                assert(res[i] == mid[i - covering]);
            } else {
                assert(res[i] == prev[i - mid.len() + 1]);
            }
        }
    } else {
        assert forall|i: int| 0 <= i < res.len() implies p(#[trigger] res[i]) by {
            if i < from {
                assert(res[i] == prev[i]);
            } else if i > from {
                assert(res[i] == prev[i - 1]);
            }
        }
    }
}

/// What is true of the ranges of a frame and of children is true of the
/// ranges of the frame with the children injected one after the other.
pub proof fn lemma_injected_all_keeps_each(
    prev: Frame,
    children: Frame,
    overwrite: Option<Highlight>,
    p: spec_fn(HighlightedRange) -> bool,
)
    requires
        kept_in_parts(p),
        kept_under(p, overwrite),
        each(prev, p),
        each(children, p),
    ensures
        each(injected_all(prev, children, overwrite), p),
    decreases children.len(),
{
    if children.len() > 0 {
        assert(p(children[0]));
        lemma_injected_keeps_each(prev, children[0], overwrite, p);
        let rest = children.drop_first();
        assert forall|i: int| 0 <= i < rest.len() implies p(#[trigger] rest[i]) by {
            assert(rest[i] == children[i + 1]);
        }
        lemma_injected_all_keeps_each(injected(prev, children[0], overwrite), rest, overwrite, p);
    }
}

/// What is true of every range is true of every range after the innermost
/// frame is injected into the one below it.
pub proof fn lemma_popped_and_injected_keeps_each(
    frames: Seq<Frame>,
    overwrite: Option<Highlight>,
    p: spec_fn(HighlightedRange) -> bool,
)
    requires
        kept_in_parts(p),
        kept_under(p, overwrite),
        each_of_all(frames, p),
        frames.len() >= 2,
    ensures
        each_of_all(popped_and_injected(frames, overwrite), p),
{
    let prev = frames[frames.len() - 2];
    let children = frames[frames.len() - 1];
    assert(each(prev, p) && each(children, p));
    lemma_sorted_keeps_each(prev, p);
    lemma_sorted_keeps_each(children, p);
    lemma_injected_all_keeps_each(sorted_by_start(prev), sorted_by_start(children), overwrite, p);
    let res = popped_and_injected(frames, overwrite);
    assert forall|k: int| 0 <= k < res.len() implies each(#[trigger] res[k], p) by {
        if k < frames.len() - 2 {
            assert(res[k] == frames[k]);
        }
    }
}

/// What is true of each range of two frames is true of each range of the
/// two put together, and the other way round.
pub proof fn lemma_each_of_both(first: Frame, second: Frame, p: spec_fn(HighlightedRange) -> bool)
    ensures
        each(first + second, p) == (each(first, p) && each(second, p)),
{
    let both = first + second;
    if each(both, p) {
        assert forall|i: int| 0 <= i < first.len() implies p(#[trigger] first[i]) by {
            assert(both[i] == first[i]);
        }
        assert forall|i: int| 0 <= i < second.len() implies p(#[trigger] second[i]) by {
            assert(both[first.len() + i] == second[i]);
        }
    }
    if each(first, p) && each(second, p) {
        assert forall|i: int| 0 <= i < both.len() implies p(#[trigger] both[i]) by {
            if i < first.len() {
                assert(both[i] == first[i]);
            } else {
                assert(both[i] == second[i - first.len()]);
            }
        }
    }
}

/// The range that is added for `target` itself where it is classified, if
/// one is added.
pub open spec fn own_range(state: State, range: TextRange, target: Element, syntactic: bool) -> Frame {
    match element_highlight(target, syntactic) {
        Some(h) => if in_rule_metavariable(state.rules, target) {
            Seq::empty()
        } else {
            seq![
                HighlightedRange {
                    range,
                    highlight: h.plus_if(state.inside_attribute, HighlightModifier::Attribute),
                    binding_hash: element_binding_hash(target, state.counts, state.hashes),
                },
            ]
        },
        None => Seq::empty(),
    }
}

/// The ranges that are added for the parts of `target` where it is
/// classified and is a string literal: those of its format specifiers, if
/// it is the template, and those of its escape sequences.
pub open spec fn part_ranges(state: State, range: TextRange, target: Element, syntactic: bool) -> Frame {
    if element_highlight(target, syntactic) is Some && target.is_token && target.kind
        == SyntaxKind::String {
        (if state.template == Some(target.range) {
            format_ranges(target.facts.format_pieces@, range.start)
        } else {
            Seq::empty()
        }) + (match target.facts.char_ranges {
            Some(pieces) => escape_ranges(pieces@, range.start),
            None => Seq::empty(),
        })
    } else {
        Seq::empty()
    }
}

/// The ranges that an event adds in a state. An element out of view adds
/// none. Where it is entered, a macro call adds the range of its name; a
/// raw string with injected code adds the ranges of the code; any other
/// element that is classified adds its own range and those of its parts.
/// Where it is left, a node adds the ranges of the code in its
/// documentation comments, marked as injected, and those of the comment
/// markers.
pub open spec fn added_by(
    state: State,
    event: WalkEvent,
    viewport: Option<TextRange>,
    syntactic: bool,
) -> Frame {
    let item = event.item();
    if !in_view(viewport, item.element.range) {
        Seq::empty()
    } else {
        match event {
            WalkEvent::Enter(_) => if is_macro_call(item) {
                match item.macro_call {
                    Some(call) => seq![
                        HighlightedRange {
                            range: call_range(call),
                            highlight: symbol(SymbolKind::Macro),
                            binding_hash: None,
                        },
                    ],
                    None => Seq::empty(),
                }
            } else if is_macro_rules(item) {
                Seq::empty()
            } else {
                match target_of(item, state.macro_call is Some) {
                    Some(target) => if is_injected_string(item) {
                        item.injection.unwrap()@
                    } else {
                        own_range(state.noted(item), item.element.range, target, syntactic)
                            + part_ranges(
                            state.noted(item),
                            item.element.range,
                            target,
                            syntactic,
                        )
                    },
                    None => Seq::empty(),
                }
            },
            WalkEvent::Leave(_) => if item.element.is_token {
                Seq::empty()
            } else {
                match item.doc_injection {
                    Some(docs) => marked(docs.code@) + docs.comments@,
                    None => Seq::empty(),
                }
            },
        }
    }
}

/// Classifying an element keeps what is true of every range, if it is true
/// of the ranges that are added.
proof fn lemma_classified_keeps(
    state: State,
    range: TextRange,
    target: Element,
    syntactic: bool,
    p: spec_fn(HighlightedRange) -> bool,
)
    requires
        kept_in_parts(p),
        state.frames.len() >= 1,
        each_of_all(state.frames, p),
        state.classifies(range, target, syntactic),
        each(
            own_range(state, range, target, syntactic) + part_ranges(state, range, target, syntactic),
            p,
        ),
    ensures
        each_of_all(state.classified(range, target, syntactic).frames, p),
{
    let own_added = own_range(state, range, target, syntactic);
    let parts = part_ranges(state, range, target, syntactic);
    lemma_each_of_both(own_added, parts, p);
    let own = state.own_frames(range, target, syntactic);
    match element_highlight(target, syntactic) {
        Some(h) => {
            let entry = HighlightedRange {
                range,
                highlight: h.plus_if(state.inside_attribute, HighlightModifier::Attribute),
                binding_hash: element_binding_hash(target, state.counts, state.hashes),
            };
            if !in_rule_metavariable(state.rules, target) {
                assert(own_added[0] == entry);
                assert(p(entry));
                lemma_steps_keep_each(state.frames, entry, Seq::empty(), p);
            }
            assert(each_of_all(own, p));
            if target.is_token && target.kind == SyntaxKind::String {
                let formats = if state.template == Some(target.range) {
                    format_ranges(target.facts.format_pieces@, range.start)
                } else {
                    Seq::empty()
                };
                let escapes = match target.facts.char_ranges {
                    Some(pieces) => escape_ranges(pieces@, range.start),
                    None => Seq::empty(),
                };
                lemma_each_of_both(formats, escapes, p);
                let formatted = with_format(own, state.template, target, range);
                if state.template == Some(target.range) {
                    lemma_steps_keep_each(own, entry, formats, p);
                    lemma_steps_keep_each(pushed(own), entry, formats, p);
                    lemma_steps_keep_each(added_all(pushed(own), formats), entry, formats, p);
                }
                assert(each_of_all(formatted, p));
                if target.facts.char_ranges is Some {
                    lemma_steps_keep_each(formatted, entry, escapes, p);
                    lemma_steps_keep_each(pushed(formatted), entry, escapes, p);
                    lemma_popped_and_injected_keeps_each(
                        added_all(pushed(formatted), escapes),
                        None,
                        p,
                    );
                }
            }
        },
        None => {},
    }
}

/// An event keeps what is true of every range, if it is true of the ranges
/// that the event adds, stays true of what is left of a range that is cut,
/// and of a range that takes the highlight of injected code.
pub proof fn lemma_event_keeps_each(
    state: State,
    event: WalkEvent,
    viewport: Option<TextRange>,
    syntactic: bool,
    p: spec_fn(HighlightedRange) -> bool,
)
    requires
        kept_in_parts(p),
        kept_under(p, Some(injected_highlight())),
        each_of_all(state.frames, p),
        state.takes(event, viewport, syntactic),
        each(added_by(state, event, viewport, syntactic), p),
    ensures
        each_of_all(state.after(event, viewport, syntactic).frames, p),
{
    let item = event.item();
    let added = added_by(state, event, viewport, syntactic);
    let any = HighlightedRange {
        range: item.element.range,
        highlight: symbol(SymbolKind::Macro),
        binding_hash: None,
    };
    match event {
        WalkEvent::Enter(_) => {
            let frames = pushed(state.frames);
            lemma_steps_keep_each(state.frames, any, added, p);
            if in_view(viewport, item.element.range) {
                if is_macro_call(item) {
                    if item.macro_call is Some {
                        assert(p(added[0]));
                        lemma_steps_keep_each(frames, added[0], added, p);
                    }
                } else if !is_macro_rules(item) {
                    let opened = State { frames, ..state.noted(item) };
                    match target_of(item, state.macro_call is Some) {
                        Some(target) => {
                            if is_injected_string(item) {
                                lemma_steps_keep_each(frames, any, added, p);
                            } else {
                                assert(own_range(opened, item.element.range, target, syntactic)
                                    == own_range(
                                    state.noted(item),
                                    item.element.range,
                                    target,
                                    syntactic,
                                ));
                                assert(part_ranges(opened, item.element.range, target, syntactic)
                                    == part_ranges(
                                    state.noted(item),
                                    item.element.range,
                                    target,
                                    syntactic,
                                ));
                                lemma_classified_keeps(
                                    opened,
                                    item.element.range,
                                    target,
                                    syntactic,
                                    p,
                                );
                            }
                        },
                        None => {},
                    }
                }
            }
        },
        WalkEvent::Leave(_) => {
            let frames = popped(state.frames);
            lemma_steps_keep_each(state.frames, any, Seq::empty(), p);
            if in_view(viewport, item.element.range) && !item.element.is_token {
                match item.doc_injection {
                    Some(docs) => {
                        let code = marked(docs.code@);
                        lemma_each_of_both(code, docs.comments@, p);
                        lemma_steps_keep_each(frames, any, code, p);
                        lemma_steps_keep_each(pushed(frames), any, code, p);
                        lemma_steps_keep_each(
                            added_all(pushed(frames), code),
                            any,
                            docs.comments@,
                            p,
                        );
                        lemma_steps_keep_each(
                            pushed(added_all(pushed(frames), code)),
                            any,
                            docs.comments@,
                            p,
                        );
                        let opened = doc_frames(frames, docs);
                        lemma_popped_and_injected_keeps_each(opened, None, p);
                        lemma_popped_and_injected_keeps_each(
                            popped_and_injected(opened, None),
                            Some(injected_highlight()),
                            p,
                        );
                    },
                    None => {},
                }
            }
        },
    }
}

/// Whether `p` is true of each range that the first `n` events of the walk
/// add, each in the state that the events before it lead to.
pub open spec fn true_of_added(
    events: Seq<WalkEvent>,
    n: int,
    viewport: Option<TextRange>,
    syntactic: bool,
    p: spec_fn(HighlightedRange) -> bool,
) -> bool {
    forall|k: int|
        0 <= k < n ==> each(
            added_by(run(events.take(k), viewport, syntactic), #[trigger] events[k], viewport, syntactic),
            p,
        )
}

proof fn lemma_prefix_keeps_each(
    events: Seq<WalkEvent>,
    n: int,
    viewport: Option<TextRange>,
    syntactic: bool,
    p: spec_fn(HighlightedRange) -> bool,
)
    requires
        kept_in_parts(p),
        kept_under(p, Some(injected_highlight())),
        sound(events, viewport, syntactic),
        0 <= n <= events.len(),
        true_of_added(events, n, viewport, syntactic, p),
    ensures
        each_of_all(run(events.take(n), viewport, syntactic).frames, p),
    decreases n,
{
    if n == 0 {
        let frames = run(events.take(0), viewport, syntactic).frames;
        assert(frames == State::initial().frames);
        assert forall|k: int| 0 <= k < frames.len() implies each(#[trigger] frames[k], p) by {
            assert(frames[k].len() == 0);
        }
    } else {
        lemma_prefix_keeps_each(events, n - 1, viewport, syntactic, p);
        let upto = events.take(n);
        assert(upto.drop_last() =~= events.take(n - 1));
        assert(upto.last() == events[n - 1]);
        assert(step_ok(events, n - 1, viewport, syntactic));
        reveal(step_ok);
        let before = run(events.take(n - 1), viewport, syntactic);
        assert(each(added_by(before, events[n - 1], viewport, syntactic), p));
        lemma_event_keeps_each(before, events[n - 1], viewport, syntactic, p);
    }
}

/// The result is drawn from what was added: a property that is true of
/// each range that the events of a walk add, and that stays true of what is
/// left of a range where it is cut and of a range that takes the highlight
/// of injected code, is true of each range of the result.
pub proof fn lemma_result_keeps_each(
    events: Seq<WalkEvent>,
    viewport: Option<TextRange>,
    syntactic: bool,
    p: spec_fn(HighlightedRange) -> bool,
)
    requires
        kept_in_parts(p),
        kept_under(p, Some(injected_highlight())),
        sound(events, viewport, syntactic),
        true_of_added(events, events.len() as int, viewport, syntactic, p),
    ensures
        each(highlighted(events, viewport, syntactic), p),
{
    lemma_prefix_keeps_each(events, events.len() as int, viewport, syntactic, p);
    assert(events.take(events.len() as int) =~= events);
    let root = run(events, viewport, syntactic).frames[0];
    assert(each(root, p));
    lemma_sorted_keeps_each(root, p);
}

/// Whether the tag marks a part of a string literal: an escape sequence or
/// a format specifier.
pub open spec fn is_mark(tag: HighlightTag) -> bool {
    tag == HighlightTag::EscapeSequence || tag == HighlightTag::FormatSpecifier
}

proof fn lemma_def_is_no_mark(def: Definition)
    ensures
        !is_mark(def_highlight(def).tag),
{
}

proof fn lemma_call_is_no_mark(element: Element)
    ensures
        func_highlight(element) matches Some(h) ==> !is_mark(h.tag),
{
}

proof fn lemma_syntax_is_no_mark(element: Element)
    ensures
        !is_mark(name_tag_by_syntax(parent_of(element.ancestors@))),
        !is_mark(name_ref_highlight_by_syntax(element).tag),
{
}

proof fn lemma_name_is_no_mark(element: Element, syntactic: bool)
    ensures
        !is_mark(name_highlight(element).tag),
        !is_mark(name_ref_highlight(element, syntactic).tag),
        !is_mark(lifetime_highlight(element).tag),
{
    lemma_syntax_is_no_mark(element);
    lemma_call_is_no_mark(element);
    match element.facts.name_class {
        Some(NameClass::Definition(def)) => lemma_def_is_no_mark(def),
        Some(NameClass::ConstReference(def)) => lemma_def_is_no_mark(def),
        _ => {},
    }
    match element.facts.name_ref_class {
        Some(NameRefClass::Definition(def)) => lemma_def_is_no_mark(def),
        _ => {},
    }
}

proof fn lemma_punct_is_no_mark(element: Element)
    ensures
        punct_highlight(element) matches Some(h) ==> !is_mark(h.tag),
{
}

proof fn lemma_keyword_is_no_mark(element: Element)
    ensures
        !is_mark(keyword_highlight(element).tag),
{
    match self_local(element) {
        Some(local) => lemma_def_is_no_mark(Definition::Local(local)),
        None => {},
    }
}

/// No element is classified as a part of a string literal: the classifier
/// gives neither the tag of an escape sequence nor that of a format
/// specifier.
pub proof fn lemma_element_is_no_mark(element: Element, syntactic: bool)
    ensures
        element_highlight(element, syntactic) matches Some(h) ==> !is_mark(h.tag),
{
    lemma_name_is_no_mark(element, syntactic);
    lemma_punct_is_no_mark(element);
    lemma_keyword_is_no_mark(element);
}

/// What holds of a range with respect to the string literals at
/// `literals`: it is well formed; and if it is tagged as an escape sequence
/// or a format specifier, it has no binding hash and lies within one of the
/// literals.
pub open spec fn in_literal(literals: Set<TextRange>) -> spec_fn(HighlightedRange) -> bool {
    |range: HighlightedRange|
        {
            &&& range.range.wf()
            &&& is_mark(range.highlight.tag) ==> range.binding_hash is None && exists|
                literal: TextRange,
            |
                literals.contains(literal) && #[trigger] literal.encloses(range.range)
        }
}

/// What is left of a range within a literal, where it is cut, lies within
/// the literal too; and a range that takes the highlight of injected code
/// is no part of a literal any more.
pub proof fn lemma_in_literal_is_kept(literals: Set<TextRange>)
    ensures
        kept_in_parts(in_literal(literals)),
        kept_under(in_literal(literals), None),
        kept_under(in_literal(literals), Some(injected_highlight())),
{
    let p = in_literal(literals);
    assert forall|range: HighlightedRange, other: HighlightedRange|
        p(range) && p(other) && range.range.start <= other.range.start && other.range.start
            <= range.range.end implies p(
        #[trigger] range.over(range.range.start, other.range.start),
    ) by {
        if is_mark(range.highlight.tag) {
            let literal = choose|literal: TextRange|
                literals.contains(literal) && #[trigger] literal.encloses(range.range);
            assert(literal.encloses(range.over(range.range.start, other.range.start).range));
        }
    }
    assert forall|range: HighlightedRange, other: HighlightedRange|
        p(range) && p(other) && range.range.start <= other.range.end && other.range.end
            <= range.range.end implies p(
        #[trigger] range.over(other.range.end, range.range.end),
    ) by {
        if is_mark(range.highlight.tag) {
            let literal = choose|literal: TextRange|
                literals.contains(literal) && #[trigger] literal.encloses(range.range);
            assert(literal.encloses(range.over(other.range.end, range.range.end).range));
        }
    }
    assert forall|range: HighlightedRange| p(range) implies p(
        #[trigger] range.retagged(injected_highlight()),
    ) by {
        assert(!is_mark(injected_highlight().tag));
    }
}

/// Whether the element is a string literal, or a token that stands for one
/// in the expansion of a macro call.
pub open spec fn is_literal(item: SourceElement) -> bool {
    item.element.is_token && (item.element.kind == SyntaxKind::String || (item.descent matches Some(
        descent,
    ) && descent.token.is_token && descent.token.kind == SyntaxKind::String))
}

/// Whether the pieces of the format string of `string`, and those of its
/// characters that are escape sequences, are well formed and lie within a
/// literal that stands at `range`.
pub open spec fn parts_within(string: Element, range: TextRange) -> bool {
    &&& forall|i: int|
        0 <= i < string.facts.format_pieces@.len() ==> (
        #[trigger] string.facts.format_pieces@[i]).range.wf()
            && string.facts.format_pieces@[i].range.end <= range.end - range.start
    &&& string.facts.char_ranges matches Some(pieces) ==> forall|i: int|
        0 <= i < pieces@.len() && is_escape(#[trigger] pieces@[i]) ==> pieces@[i].range.wf()
            && pieces@[i].range.end <= range.end - range.start
}

/// Whether what the element brings along is in order: the parts of a
/// literal lie within it, also where the element stands for a literal of
/// the expansion; and the code that is injected for it holds no range
/// tagged as a part of a literal but within one of `literals`, and without
/// a binding hash.
pub open spec fn brings_in_order(item: SourceElement, literals: Set<TextRange>) -> bool {
    &&& parts_within(item.element, item.element.range)
    &&& item.descent matches Some(descent) ==> parts_within(descent.token, item.element.range)
    &&& item.injection matches Some(code) ==> each(code@, in_literal(literals))
    &&& item.doc_injection matches Some(docs) ==> each(docs.code@, in_literal(literals)) && each(
        docs.comments@,
        in_literal(literals),
    )
}

/// Each range of the escape sequences of a literal is that of a piece of
/// the literal that is an escape sequence.
proof fn lemma_escape_ranges_are_of_pieces(pieces: Seq<CharPiece>, start: u32)
    ensures
        forall|i: int|
            0 <= i < escape_ranges(pieces, start).len() ==> exists|k: int|
                0 <= k < pieces.len() && is_escape(pieces[k]) && #[trigger] escape_ranges(
                    pieces,
                    start,
                )[i] == escape_range(#[trigger] pieces[k], start),
    decreases pieces.len(),
{
    if pieces.len() > 0 {
        let init = pieces.drop_last();
        lemma_escape_ranges_are_of_pieces(init, start);
        let res = escape_ranges(pieces, start);
        assert forall|i: int| 0 <= i < res.len() implies exists|k: int|
            0 <= k < pieces.len() && is_escape(pieces[k]) && #[trigger] res[i] == escape_range(
                #[trigger] pieces[k],
                start,
            ) by {
            if i < escape_ranges(init, start).len() {
                let k = choose|k: int|
                    0 <= k < init.len() && is_escape(init[k]) && escape_ranges(init, start)[i]
                        == escape_range(#[trigger] init[k], start);
                assert(init[k] == pieces[k]);
                assert(res[i] == escape_ranges(init, start)[i]);
            } else {
                assert(res[i] == escape_range(pieces[pieces.len() - 1], start));
            }
        }
    }
}

/// The ranges of the format specifiers and escape sequences of a literal
/// lie within the literal, and have no binding hash.
proof fn lemma_parts_in_literal(string: Element, range: TextRange, literals: Set<TextRange>)
    requires
        range.wf(),
        literals.contains(range),
        parts_within(string, range),
    ensures
        each(format_ranges(string.facts.format_pieces@, range.start), in_literal(literals)),
        string.facts.char_ranges matches Some(pieces) ==> each(
            escape_ranges(pieces@, range.start),
            in_literal(literals),
        ),
{
    let p = in_literal(literals);
    let formats = format_ranges(string.facts.format_pieces@, range.start);
    lemma_format_ranges_within(string.facts.format_pieces@, range);
    assert forall|i: int| 0 <= i < formats.len() implies p(#[trigger] formats[i]) by {
        assert(range.encloses(formats[i].range));
        assert(string.facts.format_pieces@[i].range.wf());
    }
    match string.facts.char_ranges {
        Some(pieces) => {
            let escapes = escape_ranges(pieces@, range.start);
            lemma_escape_ranges_are_of_pieces(pieces@, range.start);
            assert forall|i: int| 0 <= i < escapes.len() implies p(#[trigger] escapes[i]) by {
                let k = choose|k: int|
                    0 <= k < pieces@.len() && is_escape(pieces@[k]) && escapes[i] == escape_range(
                        #[trigger] pieces@[k],
                        range.start,
                    );
                assert(pieces@[k].range.wf());
                assert(range.encloses(escapes[i].range));
            }
        },
        None => {},
    }
}

/// Whether the event enters, in view, a string literal that stands at
/// `place`.
pub open spec fn literal_at(event: WalkEvent, viewport: Option<TextRange>, place: TextRange) -> bool {
    event matches WalkEvent::Enter(item) && is_literal(item) && in_view(
        viewport,
        item.element.range,
    ) && item.element.range == place
}

/// The places of the string literals that the walk enters in view.
pub open spec fn literals_of(events: Seq<WalkEvent>, viewport: Option<TextRange>) -> Set<TextRange> {
    Set::new(
        |place: TextRange|
            exists|k: int| 0 <= k < events.len() && literal_at(#[trigger] events[k], viewport, place),
    )
}

/// Whether what each element of the walk brings along is in order.
pub open spec fn all_in_order(events: Seq<WalkEvent>, literals: Set<TextRange>) -> bool {
    forall|k: int| 0 <= k < events.len() ==> brings_in_order((#[trigger] events[k]).item(), literals)
}

/// Whether `range` lies within a string literal that the walk enters in
/// view.
pub open spec fn lies_in_a_literal(
    events: Seq<WalkEvent>,
    viewport: Option<TextRange>,
    range: TextRange,
) -> bool {
    exists|k: int|
        0 <= k < events.len() && (#[trigger] events[k] matches WalkEvent::Enter(item) && is_literal(
            item,
        ) && in_view(viewport, item.element.range) && item.element.range.encloses(range))
}

/// What an event adds is in order with respect to the literals of the
/// walk, where what its element brings along is.
proof fn lemma_added_in_literals(
    state: State,
    event: WalkEvent,
    viewport: Option<TextRange>,
    syntactic: bool,
    literals: Set<TextRange>,
)
    requires
        event.wf(),
        state.takes(event, viewport, syntactic),
        brings_in_order(event.item(), literals),
        forall|place: TextRange| literal_at(event, viewport, place) ==> literals.contains(place),
    ensures
        each(added_by(state, event, viewport, syntactic), in_literal(literals)),
{
    let p = in_literal(literals);
    let item = event.item();
    let range = item.element.range;
    let added = added_by(state, event, viewport, syntactic);
    if in_view(viewport, range) {
        match event {
            WalkEvent::Enter(_) => {
                if !is_macro_call(item) && !is_macro_rules(item) {
                    match target_of(item, state.macro_call is Some) {
                        Some(target) => {
                            if !is_injected_string(item) {
                                let noted = state.noted(item);
                                let own = own_range(noted, range, target, syntactic);
                                let parts = part_ranges(noted, range, target, syntactic);
                                lemma_element_is_no_mark(target, syntactic);
                                assert(each(own, p));
                                if element_highlight(target, syntactic) is Some && target.is_token
                                    && target.kind == SyntaxKind::String {
                                    assert(is_literal(item));
                                    assert(literal_at(event, viewport, range));
                                    lemma_parts_in_literal(target, range, literals);
                                    let formats = if noted.template == Some(target.range) {
                                        format_ranges(target.facts.format_pieces@, range.start)
                                    } else {
                                        Seq::empty()
                                    };
                                    let escapes = match target.facts.char_ranges {
                                        Some(pieces) => escape_ranges(pieces@, range.start),
                                        None => Seq::empty(),
                                    };
                                    lemma_each_of_both(formats, escapes, p);
                                }
                                lemma_each_of_both(own, parts, p);
                            }
                        },
                        None => {},
                    }
                }
            },
            WalkEvent::Leave(_) => {
                if !item.element.is_token {
                    match item.doc_injection {
                        Some(docs) => {
                            let code = marked(docs.code@);
                            assert forall|i: int| 0 <= i < code.len() implies p(
                                #[trigger] code[i],
                            ) by {
                                let plain = docs.code@[i];
                                assert(p(plain));
                                assert(code[i] == plain.retagged(
                                    plain.highlight.plus(HighlightModifier::Injected),
                                ));
                                if is_mark(plain.highlight.tag) {
                                    let literal = choose|literal: TextRange|
                                        literals.contains(literal) && #[trigger] literal.encloses(
                                            plain.range,
                                        );
                                    assert(literal.encloses(code[i].range));
                                }
                            }
                            lemma_each_of_both(code, docs.comments@, p);
                        },
                        None => {},
                    }
                }
            },
        }
    }
}

/// The parts of string literals lie in string literals: in the result of a
/// walk that can be highlighted, each range that is tagged as an escape
/// sequence or as a format specifier lies within a string literal that the
/// walk enters in view, and has no binding hash. This holds where the parts
/// of each literal lie within it, and where the code that is injected for
/// raw strings and documentation comments is in order in the same way.
pub proof fn lemma_marks_lie_in_literals(
    events: Seq<WalkEvent>,
    viewport: Option<TextRange>,
    syntactic: bool,
)
    requires
        sound(events, viewport, syntactic),
        all_in_order(events, literals_of(events, viewport)),
    ensures
        forall|i: int|
            0 <= i < highlighted(events, viewport, syntactic).len() && is_mark(
                (#[trigger] highlighted(events, viewport, syntactic)[i]).highlight.tag,
            ) ==> highlighted(events, viewport, syntactic)[i].binding_hash is None
                && lies_in_a_literal(
                events,
                viewport,
                highlighted(events, viewport, syntactic)[i].range,
            ),
{
    let literals = literals_of(events, viewport);
    let p = in_literal(literals);
    lemma_in_literal_is_kept(literals);
    assert forall|k: int| 0 <= k < events.len() implies each(
        added_by(run(events.take(k), viewport, syntactic), #[trigger] events[k], viewport, syntactic),
        p,
    ) by {
        assert(step_ok(events, k, viewport, syntactic));
        reveal(step_ok);
        assert(brings_in_order(events[k].item(), literals));
        lemma_added_in_literals(
            run(events.take(k), viewport, syntactic),
            events[k],
            viewport,
            syntactic,
            literals,
        );
    }
    lemma_result_keeps_each(events, viewport, syntactic, p);
    let res = highlighted(events, viewport, syntactic);
    assert forall|i: int| 0 <= i < res.len() && is_mark((#[trigger] res[i]).highlight.tag) implies res[i].binding_hash is None
        && lies_in_a_literal(events, viewport, res[i].range) by {
        assert(p(res[i]));
        let literal = choose|literal: TextRange|
            literals.contains(literal) && #[trigger] literal.encloses(res[i].range);
        let k = choose|k: int|
            0 <= k < events.len() && literal_at(#[trigger] events[k], viewport, literal);
        assert(events[k] matches WalkEvent::Enter(item) && item.element.range.encloses(res[i].range));
    }
}

/// Whether a range of the frame starts or ends at `offset`.
pub open spec fn has_border(frame: Frame, offset: u32) -> bool {
    exists|i: int|
        0 <= i < frame.len() && ((#[trigger] frame[i]).range.start == offset || frame[i].range.end
            == offset)
}

/// Whether a range that an event of the walk adds starts or ends at
/// `offset`.
pub open spec fn is_border(
    events: Seq<WalkEvent>,
    viewport: Option<TextRange>,
    syntactic: bool,
    offset: u32,
) -> bool {
    exists|k: int|
        0 <= k < events.len() && has_border(
            added_by(run(events.take(k), viewport, syntactic), #[trigger] events[k], viewport, syntactic),
            offset,
        )
}

/// What holds of a range with respect to the borders of what a walk adds:
/// it is well formed, and starts and ends where a range that was added
/// starts or ends.
pub open spec fn between_borders(
    events: Seq<WalkEvent>,
    viewport: Option<TextRange>,
    syntactic: bool,
) -> spec_fn(HighlightedRange) -> bool {
    |range: HighlightedRange|
        range.range.wf() && is_border(events, viewport, syntactic, range.range.start) && is_border(
            events,
            viewport,
            syntactic,
            range.range.end,
        )
}

/// The ranges that an event adds are well formed, where the event is valid
/// and can be taken.
proof fn lemma_added_is_wf(
    state: State,
    event: WalkEvent,
    viewport: Option<TextRange>,
    syntactic: bool,
)
    requires
        event.wf(),
        state.takes(event, viewport, syntactic),
    ensures
        all_wf(added_by(state, event, viewport, syntactic)),
{
    let item = event.item();
    let range = item.element.range;
    let added = added_by(state, event, viewport, syntactic);
    if in_view(viewport, range) {
        match event {
            WalkEvent::Enter(_) => {
                if !is_macro_call(item) && !is_macro_rules(item) {
                    match target_of(item, state.macro_call is Some) {
                        Some(target) => {
                            if !is_injected_string(item) {
                                let noted = state.noted(item);
                                let own = own_range(noted, range, target, syntactic);
                                let parts = part_ranges(noted, range, target, syntactic);
                                if element_highlight(target, syntactic) is Some && target.is_token
                                    && target.kind == SyntaxKind::String {
                                    let formats = if noted.template == Some(target.range) {
                                        format_ranges(target.facts.format_pieces@, range.start)
                                    } else {
                                        Seq::empty()
                                    };
                                    let escapes = match target.facts.char_ranges {
                                        Some(pieces) => escape_ranges(pieces@, range.start),
                                        None => Seq::empty(),
                                    };
                                    assert forall|i: int| 0 <= i < formats.len() implies (
                                    #[trigger] formats[i]).range.wf() by {
                                        assert(target.facts.format_pieces@[i].range.wf());
                                    }
                                    assert forall|i: int| 0 <= i < escapes.len() implies (
                                    #[trigger] escapes[i]).range.wf() by {
                                        let pieces = target.facts.char_ranges.unwrap()@;
                                        lemma_escape_ranges_are_of_pieces(pieces, range.start);
                                        let k = choose|k: int|
                                            0 <= k < pieces.len() && is_escape(pieces[k])
                                                && escapes[i] == escape_range(
                                                #[trigger] pieces[k],
                                                range.start,
                                            );
                                        assert(pieces[k].range.wf());
                                    }
                                    assert forall|i: int| 0 <= i < parts.len() implies (
                                    #[trigger] parts[i]).range.wf() by {
                                        if i < formats.len() {
                                            assert(parts[i] == formats[i]);
                                        } else {
                                            assert(parts[i] == escapes[i - formats.len()]);
                                        }
                                    }
                                }
                                assert forall|i: int| 0 <= i < added.len() implies (
                                #[trigger] added[i]).range.wf() by {
                                    if i < own.len() {
                                        assert(added[i] == own[i]);
                                    } else {
                                        assert(added[i] == parts[i - own.len()]);
                                    }
                                }
                            }
                        },
                        None => {},
                    }
                }
            },
            WalkEvent::Leave(_) => {
                if !item.element.is_token {
                    match item.doc_injection {
                        Some(docs) => {
                            let code = marked(docs.code@);
                            assert forall|i: int| 0 <= i < added.len() implies (
                            #[trigger] added[i]).range.wf() by {
                                if i < code.len() {
                                    assert(added[i] == code[i]);
                                    assert(docs.code@[i].range.wf());
                                } else {
                                    assert(added[i] == docs.comments@[i - code.len()]);
                                }
                            }
                        },
                        None => {},
                    }
                }
            },
        }
    }
}

/// Nothing is cut but where a range starts or ends: in the result of a
/// walk that can be highlighted, each range starts where a range that was
/// added starts or ends, and ends at such a place. What is added for an
/// element in view is its whole range, so that the borders of the viewport
/// are no borders of the result unless a range that was added starts or
/// ends there.
pub proof fn lemma_borders_are_drawn(
    events: Seq<WalkEvent>,
    viewport: Option<TextRange>,
    syntactic: bool,
)
    requires
        sound(events, viewport, syntactic),
    ensures
        forall|i: int|
            0 <= i < highlighted(events, viewport, syntactic).len() ==> is_border(
                events,
                viewport,
                syntactic,
                (#[trigger] highlighted(events, viewport, syntactic)[i]).range.start,
            ) && is_border(
                events,
                viewport,
                syntactic,
                highlighted(events, viewport, syntactic)[i].range.end,
            ),
{
    let p = between_borders(events, viewport, syntactic);
    assert forall|k: int| 0 <= k < events.len() implies each(
        added_by(run(events.take(k), viewport, syntactic), #[trigger] events[k], viewport, syntactic),
        p,
    ) by {
        assert(step_ok(events, k, viewport, syntactic));
        reveal(step_ok);
        let added = added_by(run(events.take(k), viewport, syntactic), events[k], viewport, syntactic);
        lemma_added_is_wf(run(events.take(k), viewport, syntactic), events[k], viewport, syntactic);
        assert forall|i: int| 0 <= i < added.len() implies p(#[trigger] added[i]) by {
            assert(has_border(added, added[i].range.start));
            assert(has_border(added, added[i].range.end));
        }
    }
    lemma_result_keeps_each(events, viewport, syntactic, p);
    let res = highlighted(events, viewport, syntactic);
    assert forall|i: int| 0 <= i < res.len() implies is_border(
        events,
        viewport,
        syntactic,
        (#[trigger] res[i]).range.start,
    ) && is_border(events, viewport, syntactic, res[i].range.end) by {
        assert(p(res[i]));
    }
}

} // verus!
