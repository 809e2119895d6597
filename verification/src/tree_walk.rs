//! The walk of a tree, and why it can be highlighted: if the ranges of the
//! elements of a tree are nested as those of a parsed text are, then the
//! highlighted ranges of its walk can be made disjoint.

use crate::bindings::count_of;
use crate::classify::{countable, counts_after, element_highlight};
use crate::highlight::{
    docs_enclosed, docs_in_order, highlighted, in_view, is_injected_string,
    is_macro_call, is_macro_rules, lemma_docs_keep, lemma_docs_settle, lemma_string_settles, run,
    sound, step_ok, string_in_order, target_of, with_docs, Highlighter, State,
};
use crate::range_stack::{
    all_wf, all_within, disjoint_sorted, frames_wf, holds, lemma_merge_settled_to,
    lemma_merged_holds, lemma_merged_keeps, lemma_push_then_pop, lemma_settled_is_flat, mergeable,
    merged, popped, pushed, settled_to, solid, Frame, HighlightedRange,
};
use crate::syntax_kind::SyntaxKind;
use crate::text_range::TextRange;
use crate::element::Element;
use crate::walk::{call_range, DocInjection, SourceElement, WalkEvent};
use vstd::prelude::*;

verus! {

/// A tree of elements.
pub struct SyntaxTree {
    pub item: SourceElement,
    pub children: Seq<SyntaxTree>,
}

impl SyntaxTree {
    /// The range of the element at the root of the tree.
    pub open spec fn range(self) -> TextRange {
        self.item.element.range
    }
}

/// The events of the walk of a tree: its root is entered, then come the
/// walks of the trees below it, in their order, and then the root is left.
pub open spec fn walk(tree: SyntaxTree) -> Seq<WalkEvent>
    decreases tree, 0int,
{
    seq![WalkEvent::Enter(tree.item)] + walk_all(tree.children, tree.children.len() as int) + seq![
        WalkEvent::Leave(tree.item),
    ]
}

/// The events of the walks of the first `n` of `trees`.
pub open spec fn walk_all(trees: Seq<SyntaxTree>, n: int) -> Seq<WalkEvent>
    decreases trees, n,
{
    if n <= 0 || n > trees.len() {
        Seq::empty()
    } else {
        walk_all(trees, n - 1) + walk(trees[n - 1])
    }
}

/// The number of elements of a tree.
pub open spec fn size(tree: SyntaxTree) -> nat
    decreases tree, 0int,
{
    1 + sizes(tree.children, tree.children.len() as int)
}

/// The number of elements of the first `n` of `trees`.
pub open spec fn sizes(trees: Seq<SyntaxTree>, n: int) -> nat
    decreases trees, n,
{
    if n <= 0 || n > trees.len() {
        0
    } else {
        sizes(trees, n - 1) + size(trees[n - 1])
    }
}

/// The state after the events `events`, taken from `state` on.
pub open spec fn run_from(
    state: State,
    events: Seq<WalkEvent>,
    viewport: Option<TextRange>,
    syntactic: bool,
) -> State
    decreases events.len(),
{
    if events.len() == 0 {
        state
    } else {
        run_from(state, events.drop_last(), viewport, syntactic).after(
            events.last(),
            viewport,
            syntactic,
        )
    }
}

/// Whether the events `events` can be taken one after the other, from
/// `state` on.
pub open spec fn steps(
    state: State,
    events: Seq<WalkEvent>,
    viewport: Option<TextRange>,
    syntactic: bool,
) -> bool
    decreases events.len(),
{
    events.len() == 0 || {
        &&& steps(state, events.drop_last(), viewport, syntactic)
        &&& events.last().wf()
        &&& run_from(state, events.drop_last(), viewport, syntactic).takes(
            events.last(),
            viewport,
            syntactic,
        )
    }
}

/// A walk is run from the state before the first event.
pub proof fn lemma_run_from_initial(
    events: Seq<WalkEvent>,
    viewport: Option<TextRange>,
    syntactic: bool,
)
    ensures
        run(events, viewport, syntactic) == run_from(State::initial(), events, viewport, syntactic),
    decreases events.len(),
{
    if events.len() > 0 {
        lemma_run_from_initial(events.drop_last(), viewport, syntactic);
    }
}

/// Events that follow one another are taken one after the other.
pub proof fn lemma_run_concat(
    state: State,
    first: Seq<WalkEvent>,
    second: Seq<WalkEvent>,
    viewport: Option<TextRange>,
    syntactic: bool,
)
    ensures
        run_from(state, first + second, viewport, syntactic) == run_from(
            run_from(state, first, viewport, syntactic),
            second,
            viewport,
            syntactic,
        ),
        steps(state, first + second, viewport, syntactic) == (steps(
            state,
            first,
            viewport,
            syntactic,
        ) && steps(run_from(state, first, viewport, syntactic), second, viewport, syntactic)),
    decreases second.len(),
{
    if second.len() == 0 {
        assert(first + second =~= first);
    } else {
        lemma_run_concat(state, first, second.drop_last(), viewport, syntactic);
        assert((first + second).drop_last() =~= first + second.drop_last());
        assert((first + second).last() == second.last());
    }
}

/// A single event is taken as it is.
pub proof fn lemma_run_one(
    state: State,
    event: WalkEvent,
    viewport: Option<TextRange>,
    syntactic: bool,
)
    ensures
        run_from(state, seq![event], viewport, syntactic) == state.after(
            event,
            viewport,
            syntactic,
        ),
        steps(state, seq![event], viewport, syntactic) == (event.wf() && state.takes(
            event,
            viewport,
            syntactic,
        )),
{
    reveal_with_fuel(run_from, 2);
    reveal_with_fuel(steps, 2);
    assert(seq![event].drop_last() =~= Seq::<WalkEvent>::empty());
    assert(seq![event].last() == event);
}

/// Events that can be taken one after the other can be taken as far as any
/// of them.
pub proof fn lemma_steps_prefix(
    state: State,
    events: Seq<WalkEvent>,
    n: int,
    viewport: Option<TextRange>,
    syntactic: bool,
)
    requires
        steps(state, events, viewport, syntactic),
        0 <= n <= events.len(),
    ensures
        steps(state, events.take(n), viewport, syntactic),
    decreases events.len(),
{
    if n < events.len() {
        lemma_steps_prefix(state, events.drop_last(), n, viewport, syntactic);
        assert(events.drop_last().take(n) =~= events.take(n));
    } else {
        assert(events.take(n) =~= events);
    }
}

/// A walk whose events can be taken one after the other from the first
/// state on, and that leaves one frame whose ranges are in order, can be
/// highlighted.
pub proof fn lemma_steps_are_sound(
    events: Seq<WalkEvent>,
    viewport: Option<TextRange>,
    syntactic: bool,
)
    requires
        steps(State::initial(), events, viewport, syntactic),
        run_from(State::initial(), events, viewport, syntactic).frames.len() == 1,
        crate::range_stack::adjacent_disjoint(
            crate::range_stack::sorted_by_start(
                run_from(State::initial(), events, viewport, syntactic).frames[0],
            ),
        ),
    ensures
        sound(events, viewport, syntactic),
{
    lemma_run_from_initial(events, viewport, syntactic);
    assert forall|i: int| 0 <= i < events.len() implies #[trigger] step_ok(
        events,
        i,
        viewport,
        syntactic,
    ) by {
        reveal(step_ok);
        lemma_steps_prefix(State::initial(), events, i + 1, viewport, syntactic);
        let upto = events.take(i + 1);
        assert(upto.drop_last() =~= events.take(i));
        assert(upto.last() == events[i]);
        lemma_run_from_initial(events.take(i), viewport, syntactic);
    }
}

/// Whether the state keeps track of macro definitions as it should: while
/// one is at hand, the tokens read in it are followed, and no more than
/// `bound` brackets are open; and none are followed otherwise.
pub open spec fn steady(state: State, bound: nat) -> bool {
    match state.macro_rules {
        Some(_) => state.rules matches Some(rules) && rules.paren_level <= bound,
        None => state.rules is None,
    }
}

/// Whether a macro definition fits into a walk: no code is injected into
/// it.
pub open spec fn rules_fit(item: SourceElement) -> bool {
    &&& is_macro_rules(item)
    &&& item.element.range.wf()
    &&& item.injection is None
    &&& item.doc_injection is None
}

/// Whether no name has been bound more often than `bound` times.
pub open spec fn counts_below(counts: Map<Seq<char>, u32>, bound: nat) -> bool {
    forall|name: Seq<char>| #[trigger] count_of(counts, name) <= bound
}

/// Whether `target` can be highlighted in the place of an element that
/// stands at `range`: the range is not empty if there is a highlight, and
/// the parts of a string literal are in order.
pub open spec fn target_fits(range: TextRange, target: Element, syntactic: bool) -> bool {
    &&& element_highlight(target, syntactic) is Some ==> range.start < range.end
    &&& target.is_token && target.kind == SyntaxKind::String ==> string_in_order(target, range)
}

/// Whether an element that is no macro call fits into a walk, outside of
/// macro calls or inside one: it is no macro definition; if it is a string
/// literal with code injected into it, the ranges of the code are not
/// empty and follow one another within it; and what is classified in its
/// place can be highlighted there.
pub open spec fn fits(item: SourceElement, in_call: bool, syntactic: bool) -> bool {
    &&& item.wf()
    &&& !is_macro_call(item)
    &&& !is_macro_rules(item)
    &&& is_injected_string(item) ==> {
        &&& solid(item.injection.unwrap()@)
        &&& disjoint_sorted(item.injection.unwrap()@)
        &&& all_within(item.injection.unwrap()@, item.element.range)
    }
    &&& target_of(item, in_call) matches Some(target) ==> {
        &&& target_fits(item.element.range, target, syntactic)
        &&& item.element.is_token && item.element.kind == SyntaxKind::String
            && item.element.facts.is_raw ==> target.is_token
    }
}

/// Whether a macro call fits into a walk: no code is injected into it, and
/// the range of its name is not empty and lies within it.
pub open spec fn call_fits(item: SourceElement) -> bool {
    &&& is_macro_call(item)
    &&& item.element.range.wf()
    &&& item.injection is None
    &&& item.doc_injection is None
    &&& item.macro_call matches Some(call) ==> call_range(call).start < call_range(call).end
        && item.element.range.encloses(call_range(call))
}

/// Whether the ranges of `trees` follow one another within `span`.
pub open spec fn nested_in(trees: Seq<SyntaxTree>, span: TextRange) -> bool {
    &&& forall|i: int|
        0 <= i < trees.len() ==> (#[trigger] trees[i]).range().wf() && span.encloses(
            trees[i].range(),
        )
    &&& forall|i: int, j: int|
        0 <= i && i + 1 == j && j < trees.len() ==> (#[trigger] trees[i]).range().end <= (
        #[trigger] trees[j]).range().start
}

/// Whether the tree adds nothing inside a macro call: it holds no comment
/// and no token that stands directly among the arguments, and no macro call
/// or definition; and the ranges of the trees below each element lie
/// within the range of the element.
pub open spec fn mute(tree: SyntaxTree) -> bool
    decreases tree,
{
    &&& tree.item.wf()
    &&& !is_macro_call(tree.item)
    &&& !is_macro_rules(tree.item)
    &&& tree.item.doc_injection is None
    &&& target_of(tree.item, true) is None
    &&& forall|i: int|
        0 <= i < tree.children.len() ==> tree.range().encloses(
            (#[trigger] tree.children[i]).range(),
        ) && mute(tree.children[i])
}

/// Where a tree below a macro call may lie: within the range of the name of
/// the call, or behind it.
pub open spec fn placed(tree: SyntaxTree, name: Option<TextRange>) -> bool {
    match name {
        Some(name) => name.encloses(tree.range()) || name.end <= tree.range().start,
        None => true,
    }
}

/// The range of the name of a macro call, if it has a name.
pub open spec fn name_range(item: SourceElement) -> Option<TextRange> {
    match item.macro_call {
        Some(call) => Some(call_range(call)),
        None => None,
    }
}

/// Whether the element is a comment that is looked at.
pub open spec fn shown_comment(item: SourceElement, viewport: Option<TextRange>) -> bool {
    &&& item.element.is_token
    &&& item.element.kind == SyntaxKind::Comment
    &&& in_view(viewport, item.element.range)
}

/// Whether the element is a node in view whose documentation comments hold
/// code.
pub open spec fn documented(item: SourceElement, viewport: Option<TextRange>) -> bool {
    &&& !item.element.is_token
    &&& item.doc_injection is Some
    &&& in_view(viewport, item.element.range)
}

/// Whether `range` lies within a comment that is looked at, among the
/// trees `trees`.
pub open spec fn in_comment(trees: Seq<SyntaxTree>, range: TextRange, viewport: Option<TextRange>) -> bool {
    exists|i: int|
        0 <= i < trees.len() && shown_comment((#[trigger] trees[i]).item, viewport)
            && trees[i].range().encloses(range)
}

/// Whether the code in the documentation comments of the root of `tree`
/// fits into the walk: the code and the markers are in order, and each
/// range of the code and each marker lies within a comment directly below
/// the root that is looked at.
pub open spec fn docs_fit_in(tree: SyntaxTree, docs: DocInjection, viewport: Option<TextRange>) -> bool {
    &&& docs_in_order(docs)
    &&& forall|k: int|
        0 <= k < docs.code@.len() ==> in_comment(
            tree.children,
            (#[trigger] docs.code@[k]).range,
            viewport,
        )
    &&& forall|k: int|
        0 <= k < docs.comments@.len() ==> in_comment(
            tree.children,
            (#[trigger] docs.comments@[k]).range,
            viewport,
        )
}

/// Whether the tree is nested as the tree of a parsed text is, where it
/// stands inside a macro call or not, and inside a macro definition or not.
///
/// The ranges of the trees below an element follow one another within the
/// range of the element, and nothing lies below a token. Each element fits
/// into the walk. No macro call lies inside a macro call, and no macro
/// definition inside a macro definition. A tree below a macro call adds
/// nothing, or it lies within the range of the name of the call or behind
/// that range. The code in the documentation comments of a node in view
/// lies within comments directly below the node that are in view.
pub open spec fn well_nested(
    tree: SyntaxTree,
    in_call: bool,
    in_rules: bool,
    viewport: Option<TextRange>,
    syntactic: bool,
) -> bool
    decreases tree,
{
    &&& tree.item.element.is_token ==> tree.children.len() == 0
    &&& nested_in(tree.children, tree.range())
    &&& if is_macro_call(tree.item) {
        &&& !in_call
        &&& call_fits(tree.item)
        &&& forall|i: int|
            0 <= i < tree.children.len() ==> mute(#[trigger] tree.children[i]) || (well_nested(
                tree.children[i],
                true,
                in_rules,
                viewport,
                syntactic,
            ) && placed(tree.children[i], name_range(tree.item)))
    } else if is_macro_rules(tree.item) {
        &&& !in_rules
        &&& rules_fit(tree.item)
        &&& forall|i: int|
            0 <= i < tree.children.len() ==> well_nested(
                #[trigger] tree.children[i],
                in_call,
                true,
                viewport,
                syntactic,
            )
    } else {
        &&& fits(tree.item, in_call, syntactic)
        &&& documented(tree.item, viewport) ==> docs_fit_in(
            tree,
            tree.item.doc_injection.unwrap(),
            viewport,
        )
        &&& forall|i: int|
            0 <= i < tree.children.len() ==> well_nested(
                #[trigger] tree.children[i],
                in_call,
                in_rules,
                viewport,
                syntactic,
            )
    }
}

/// Whether each element of the tree is valid, and the ranges of the trees
/// below each element lie within the range of the element.
pub open spec fn ranges_nested(tree: SyntaxTree) -> bool
    decreases tree,
{
    &&& tree.item.wf()
    &&& forall|i: int|
        0 <= i < tree.children.len() ==> tree.range().encloses(
            (#[trigger] tree.children[i]).range(),
        ) && ranges_nested(tree.children[i])
}

/// In a tree that adds nothing the ranges are nested.
proof fn lemma_mute_is_nested(tree: SyntaxTree)
    requires
        mute(tree),
    ensures
        ranges_nested(tree),
    decreases tree,
{
    assert forall|i: int| 0 <= i < tree.children.len() implies tree.range().encloses(
        (#[trigger] tree.children[i]).range(),
    ) && ranges_nested(tree.children[i]) by {
        lemma_mute_is_nested(tree.children[i]);
    }
}

/// In a tree that is nested well the ranges are nested.
proof fn lemma_well_nested_is_nested(
    tree: SyntaxTree,
    in_call: bool,
    in_rules: bool,
    viewport: Option<TextRange>,
    syntactic: bool,
)
    requires
        well_nested(tree, in_call, in_rules, viewport, syntactic),
    ensures
        ranges_nested(tree),
    decreases tree,
{
    assert forall|i: int| 0 <= i < tree.children.len() implies tree.range().encloses(
        (#[trigger] tree.children[i]).range(),
    ) && ranges_nested(tree.children[i]) by {
        let child = tree.children[i];
        if is_macro_call(tree.item) {
            if mute(child) {
                lemma_mute_is_nested(child);
            } else {
                lemma_well_nested_is_nested(child, true, in_rules, viewport, syntactic);
            }
        } else if is_macro_rules(tree.item) {
            lemma_well_nested_is_nested(child, in_call, true, viewport, syntactic);
        } else {
            lemma_well_nested_is_nested(child, in_call, in_rules, viewport, syntactic);
        }
    }
}

/// Where the walk stands within an element that has just been entered: at
/// its start, and at its end if it is a token, which holds nothing.
pub open spec fn start_cursor(item: SourceElement) -> u32 {
    if item.element.is_token {
        item.element.range.end
    } else {
        item.element.range.start
    }
}

/// The frame of an element after it is entered.
pub open spec fn entered_frame(
    state: State,
    item: SourceElement,
    viewport: Option<TextRange>,
    syntactic: bool,
) -> Frame {
    state.entered(item, viewport, syntactic).frames.last()
}

/// The frames with one more frame are well formed if the frames and the
/// frame are.
proof fn lemma_pushed_wf(frames: Seq<Frame>, frame: Frame)
    requires
        frames_wf(frames),
        solid(frame),
    ensures
        frames_wf(frames.push(frame)),
{
    let res = frames.push(frame);
    assert forall|i: int| 0 <= i < res.len() implies all_wf(#[trigger] res[i]) by {
        if i < frames.len() {
            assert(res[i] == frames[i]);
        } else {
            assert(res[i] == frame);
            assert forall|k: int| 0 <= k < frame.len() implies (#[trigger] frame[k]).range.wf() by {}
        }
    }
}

/// Entering an element that fits opens a frame that is settled: it holds
/// nothing, or the range of the element, cut up by the parts of a string
/// literal. Not more than one binding is counted, and not more than one
/// bracket is opened.
proof fn lemma_enter_fit(
    state: State,
    item: SourceElement,
    bound: nat,
    viewport: Option<TextRange>,
    syntactic: bool,
)
    requires
        state.wf(),
        steady(state, bound),
        fits(item, state.macro_call is Some, syntactic),
        counts_below(state.counts, bound),
        bound < u32::MAX,
    ensures
        WalkEvent::Enter(item).wf(),
        state.enters(item, viewport, syntactic),
        state.entered(item, viewport, syntactic).wf(),
        steady(state.entered(item, viewport, syntactic), bound + 1),
        state.entered(item, viewport, syntactic).macro_call == state.macro_call,
        state.entered(item, viewport, syntactic).macro_rules == state.macro_rules,
        state.entered(item, viewport, syntactic).frames == state.frames.push(
            entered_frame(state, item, viewport, syntactic),
        ),
        settled_to(
            entered_frame(state, item, viewport, syntactic),
            start_cursor(item),
            item.element.range,
            item.element.range.end,
        ),
        counts_below(state.entered(item, viewport, syntactic).counts, bound + 1),
        shown_comment(item, viewport) ==> entered_frame(state, item, viewport, syntactic).len()
            == 1 && entered_frame(state, item, viewport, syntactic)[0].range == item.element.range,
{
    let after = state.entered(item, viewport, syntactic);
    let range = item.element.range;
    let opened = State { frames: pushed(state.frames), ..state.noted(item) };
    let none = Seq::<HighlightedRange>::empty();
    assert(pushed(state.frames) =~= state.frames.push(none));
    if let Some(rules) = state.rules {
        if rules.takes(item.element.kind) {
            crate::macro_rules::lemma_advanced(rules, item.element.kind);
        }
    }
    if in_view(viewport, range) {
        match target_of(item, state.macro_call is Some) {
            Some(target) if is_injected_string(item) => {
                let code = item.injection.unwrap()@;
                assert(after.frames =~= state.frames.push(code));
                assert(after.frames.last() == code);
                assert(code.len() > 0 ==> range.encloses(code.last().range));
                lemma_counts_grow(state.counts, bound, bound + 1);
            },
            Some(target) => {
                assert(after == opened.classified(range, target, syntactic));
                assert(countable(target, state.counts)) by {
                    match crate::classify::bound_name(target) {
                        Some(name) => {
                            assert(count_of(state.counts, name) <= bound);
                        },
                        None => {},
                    }
                }
                lemma_counted(target, state.counts, bound);
                let own = opened.own_frames(range, target, syntactic);
                match element_highlight(target, syntactic) {
                    Some(h) if crate::macro_rules::in_rule_metavariable(opened.rules, target) => {
                        // The name of a metavariable is left out.
                        assert(target.kind != SyntaxKind::String);
                        assert(after.frames == own);
                        assert(own =~= state.frames.push(none));
                        assert(own.last() == none);
                    },
                    Some(h) => {
                        let added = HighlightedRange {
                            range,
                            highlight: h.plus_if(
                                opened.inside_attribute,
                                crate::tags::HighlightModifier::Attribute,
                            ),
                            binding_hash: crate::classify::element_binding_hash(
                                target,
                                state.counts,
                                state.hashes,
                            ),
                        };
                        assert(own =~= state.frames.push(seq![added]));
                        assert(own.last() == seq![added]);
                        if target.is_token && target.kind == SyntaxKind::String {
                            lemma_string_settles(own, opened.template, target, range, added);
                            assert(own.drop_last() =~= state.frames);
                            assert(after.frames =~= state.frames.push(after.frames.last()));
                            assert(after.frames.last().len() > 0 ==> range.encloses(
                                after.frames.last().last().range,
                            ));
                            assert(item.element.is_token) by {
                                // What stands for a string literal in a macro
                                // call stands for a token.
                                assert(target.is_token);
                                if (state.macro_call is Some) && item.element.kind
                                    != SyntaxKind::Comment {
                                    assert(crate::highlight::is_argument_token(item));
                                } else {
                                    assert(target == item.element);
                                }
                            }
                        } else {
                            assert(after.frames == own);
                            assert(solid(seq![added]));
                        }
                    },
                    None => {
                        assert(after.frames == own);
                        assert(own =~= state.frames.push(none));
                        assert(own.last() == none);
                    },
                }
            },
            None => {
                assert(after.frames =~= state.frames.push(none));
                assert(after.frames.last() == none);
                assert forall|name: Seq<char>| #[trigger]
                    count_of(after.counts, name) <= bound + 1 by {
                    assert(count_of(state.counts, name) <= bound);
                }
            },
        }
    } else {
        assert(after.frames =~= state.frames.push(none));
        assert(after.frames.last() == none);
        assert forall|name: Seq<char>| #[trigger] count_of(after.counts, name) <= bound + 1 by {
            assert(count_of(state.counts, name) <= bound);
        }
    }
    lemma_pushed_wf(state.frames, after.frames.last());
}

/// An element counts one binding at most.
proof fn lemma_counted(target: Element, counts: Map<Seq<char>, u32>, bound: nat)
    requires
        counts_below(counts, bound),
        bound < u32::MAX,
    ensures
        counts_below(counts_after(target, counts), bound + 1),
{
    assert forall|name: Seq<char>| #[trigger]
        count_of(counts_after(target, counts), name) <= bound + 1 by {
        assert(count_of(counts, name) <= bound);
        match crate::classify::bound_name(target) {
            Some(bound_name) => {
                assert(count_of(counts, bound_name) <= bound);
            },
            None => {},
        }
        match crate::classify::used_name(target) {
            Some(used) => {
                assert(count_of(counts, used) <= bound);
            },
            None => {},
        }
    }
}

/// Leaving an element that is no macro call and no macro definition, and
/// is no node in view with code in its documentation, merges its frame
/// into the one below, and changes nothing else.
proof fn lemma_leave_fit(
    state: State,
    item: SourceElement,
    viewport: Option<TextRange>,
    syntactic: bool,
)
    requires
        state.wf(),
        item.wf(),
        !is_macro_call(item),
        !is_macro_rules(item),
        !documented(item, viewport),
        state.frames.len() >= 2,
        mergeable(state.frames[state.frames.len() - 2], state.frames[state.frames.len() - 1]),
        all_wf(merged(state.frames[state.frames.len() - 2], state.frames[state.frames.len() - 1])),
    ensures
        WalkEvent::Leave(item).wf(),
        state.leaves(item, viewport),
        state.left(item, viewport).wf(),
        state.left(item, viewport).macro_call == state.macro_call,
        state.left(item, viewport).macro_rules == state.macro_rules,
        state.left(item, viewport).rules == state.rules,
        state.left(item, viewport).counts == state.counts,
        state.left(item, viewport).frames == state.frames.drop_last().drop_last().push(
            merged(state.frames[state.frames.len() - 2], state.frames[state.frames.len() - 1]),
        ),
{
    let after = state.left(item, viewport);
    assert(after.frames == popped(state.frames));
    lemma_popped_wf(state.frames);
}

/// The frames with the innermost merged are well formed if the frames and
/// the merged frame are.
proof fn lemma_popped_wf(frames: Seq<Frame>)
    requires
        frames.len() >= 2,
        frames_wf(frames),
        all_wf(merged(frames[frames.len() - 2], frames[frames.len() - 1])),
    ensures
        frames_wf(popped(frames)),
        popped(frames).len() == frames.len() - 1,
        popped(frames).drop_last() == frames.drop_last().drop_last(),
{
    let res = popped(frames);
    assert forall|i: int| 0 <= i < res.len() implies all_wf(#[trigger] res[i]) by {
        if i < res.len() - 1 {
            assert(res[i] == frames[i]);
        }
    }
    assert(res.drop_last() =~= frames.drop_last().drop_last());
}

/// Leaving a node in view with code in its documentation merges its frame
/// into the one below, and injects the code into the merged frame.
proof fn lemma_leave_docs(
    state: State,
    item: SourceElement,
    viewport: Option<TextRange>,
    syntactic: bool,
)
    requires
        state.wf(),
        item.wf(),
        !is_macro_call(item),
        !is_macro_rules(item),
        documented(item, viewport),
        state.frames.len() >= 2,
        mergeable(state.frames[state.frames.len() - 2], state.frames[state.frames.len() - 1]),
        frames_wf(with_docs(popped(state.frames), item.doc_injection.unwrap())),
    ensures
        WalkEvent::Leave(item).wf(),
        state.leaves(item, viewport),
        state.left(item, viewport).wf(),
        state.left(item, viewport).macro_call == state.macro_call,
        state.left(item, viewport).macro_rules == state.macro_rules,
        state.left(item, viewport).rules == state.rules,
        state.left(item, viewport).counts == state.counts,
        state.left(item, viewport).frames == with_docs(
            popped(state.frames),
            item.doc_injection.unwrap(),
        ),
{
}

/// What lies within a range that is out of view is out of view.
proof fn lemma_out_of_view_within(viewport: Option<TextRange>, outer: TextRange, inner: TextRange)
    requires
        !in_view(viewport, outer),
        outer.encloses(inner),
    ensures
        !in_view(viewport, inner),
{
}

/// The walk of a tree that is out of view changes nothing.
pub proof fn lemma_walk_out_of_view(
    tree: SyntaxTree,
    state: State,
    viewport: Option<TextRange>,
    syntactic: bool,
)
    requires
        ranges_nested(tree),
        !in_view(viewport, tree.range()),
        state.frames.len() >= 1,
    ensures
        steps(state, walk(tree), viewport, syntactic),
        run_from(state, walk(tree), viewport, syntactic) == state,
    decreases tree, 0int,
{
    let item = tree.item;
    let enter = seq![WalkEvent::Enter(item)];
    let inner = walk_all(tree.children, tree.children.len() as int);
    let leave = seq![WalkEvent::Leave(item)];
    let entered = state.entered(item, viewport, syntactic);
    lemma_run_one(state, WalkEvent::Enter(item), viewport, syntactic);
    lemma_walk_all_out_of_view(tree, tree.children.len() as int, entered, viewport, syntactic);
    lemma_run_concat(state, enter, inner, viewport, syntactic);
    lemma_push_then_pop(state.frames);
    lemma_run_one(entered, WalkEvent::Leave(item), viewport, syntactic);
    lemma_run_concat(state, enter + inner, leave, viewport, syntactic);
    assert(walk(tree) == enter + inner + leave);
    assert(entered.left(item, viewport) == state);
}

/// The walks of trees that lie within a range that is out of view change
/// nothing.
proof fn lemma_walk_all_out_of_view(
    tree: SyntaxTree,
    n: int,
    state: State,
    viewport: Option<TextRange>,
    syntactic: bool,
)
    requires
        ranges_nested(tree),
        !in_view(viewport, tree.range()),
        0 <= n <= tree.children.len(),
        state.frames.len() >= 1,
    ensures
        steps(state, walk_all(tree.children, n), viewport, syntactic),
        run_from(state, walk_all(tree.children, n), viewport, syntactic) == state,
    decreases tree.children, n,
{
    if n > 0 {
        let child = tree.children[n - 1];
        lemma_walk_all_out_of_view(tree, n - 1, state, viewport, syntactic);
        lemma_out_of_view_within(viewport, tree.range(), child.range());
        lemma_walk_out_of_view(child, state, viewport, syntactic);
        lemma_run_concat(state, walk_all(tree.children, n - 1), walk(child), viewport, syntactic);
    }
}

/// The walk of a tree that adds nothing, inside a macro call, leaves the
/// frames, the counts and the macro call at hand as they were.
proof fn lemma_walk_mute(
    tree: SyntaxTree,
    state: State,
    bound: nat,
    viewport: Option<TextRange>,
    syntactic: bool,
)
    requires
        mute(tree),
        state.wf(),
        steady(state, bound),
        bound + size(tree) < u32::MAX,
        state.macro_call is Some,
    ensures
        steps(state, walk(tree), viewport, syntactic),
        ({
            let after = run_from(state, walk(tree), viewport, syntactic);
            &&& after.wf()
            &&& steady(after, bound + size(tree))
            &&& after.macro_call == state.macro_call
            &&& after.macro_rules == state.macro_rules
            &&& after.frames == state.frames
            &&& after.counts == state.counts
        }),
    decreases tree, 0int,
{
    let item = tree.item;
    let enter = seq![WalkEvent::Enter(item)];
    let inner = walk_all(tree.children, tree.children.len() as int);
    let leave = seq![WalkEvent::Leave(item)];
    let entered = state.entered(item, viewport, syntactic);
    assert(entered.frames == pushed(state.frames));
    lemma_pushed_wf(state.frames, Seq::empty());
    if let Some(rules) = state.rules {
        if rules.takes(item.element.kind) {
            crate::macro_rules::lemma_advanced(rules, item.element.kind);
        }
    }
    lemma_run_one(state, WalkEvent::Enter(item), viewport, syntactic);
    lemma_walk_all_mute(
        tree,
        tree.children.len() as int,
        entered,
        bound + 1,
        viewport,
        syntactic,
    );
    let walked = run_from(entered, inner, viewport, syntactic);
    lemma_run_concat(state, enter, inner, viewport, syntactic);
    lemma_push_then_pop(state.frames);
    lemma_run_one(walked, WalkEvent::Leave(item), viewport, syntactic);
    lemma_run_concat(state, enter + inner, leave, viewport, syntactic);
    assert(walk(tree) == enter + inner + leave);
}

/// The walks of trees that add nothing, inside a macro call, leave the
/// frames, the counts and the macro call at hand as they were.
proof fn lemma_walk_all_mute(
    tree: SyntaxTree,
    n: int,
    state: State,
    bound: nat,
    viewport: Option<TextRange>,
    syntactic: bool,
)
    requires
        mute(tree),
        0 <= n <= tree.children.len(),
        state.wf(),
        steady(state, bound),
        bound + sizes(tree.children, n) < u32::MAX,
        state.macro_call is Some,
    ensures
        steps(state, walk_all(tree.children, n), viewport, syntactic),
        ({
            let after = run_from(state, walk_all(tree.children, n), viewport, syntactic);
            &&& after.wf()
            &&& steady(after, bound + sizes(tree.children, n))
            &&& after.macro_call == state.macro_call
            &&& after.macro_rules == state.macro_rules
            &&& after.frames == state.frames
            &&& after.counts == state.counts
        }),
    decreases tree.children, n,
{
    if n > 0 {
        let child = tree.children[n - 1];
        lemma_walk_all_mute(tree, n - 1, state, bound, viewport, syntactic);
        let upto = run_from(state, walk_all(tree.children, n - 1), viewport, syntactic);
        lemma_walk_mute(child, upto, bound + sizes(tree.children, n - 1), viewport, syntactic);
        lemma_run_concat(state, walk_all(tree.children, n - 1), walk(child), viewport, syntactic);
    }
}

/// Where the walk stands within a macro call that has just been entered:
/// at the start of its name, or at its own start if it has no name.
pub open spec fn call_start(item: SourceElement) -> u32 {
    match name_range(item) {
        Some(name) => name.start,
        None => item.element.range.start,
    }
}

/// How far the range of the name of a macro call reaches: to its end, and
/// to the end of the call if the call has no name.
pub open spec fn call_reach(item: SourceElement) -> u32 {
    match name_range(item) {
        Some(name) => name.end,
        None => item.element.range.end,
    }
}

/// Entering a macro call that fits and is in view opens a frame that holds
/// the range of its name, and makes it the macro call at hand.
proof fn lemma_enter_call(
    state: State,
    item: SourceElement,
    viewport: Option<TextRange>,
    syntactic: bool,
)
    requires
        state.wf(),
        call_fits(item),
        in_view(viewport, item.element.range),
    ensures
        WalkEvent::Enter(item).wf(),
        state.enters(item, viewport, syntactic),
        state.entered(item, viewport, syntactic).wf(),
        state.entered(item, viewport, syntactic).macro_rules == state.macro_rules,
        state.entered(item, viewport, syntactic).rules == state.rules,
        state.entered(item, viewport, syntactic).macro_call == Some(item.element.range),
        state.entered(item, viewport, syntactic).counts == state.counts,
        state.entered(item, viewport, syntactic).frames == state.frames.push(
            entered_frame(state, item, viewport, syntactic),
        ),
        settled_to(
            entered_frame(state, item, viewport, syntactic),
            call_start(item),
            item.element.range,
            call_reach(item),
        ),
{
    let after = state.entered(item, viewport, syntactic);
    let none = Seq::<HighlightedRange>::empty();
    assert(pushed(state.frames) =~= state.frames.push(none));
    match item.macro_call {
        Some(call) => {
            let own = HighlightedRange {
                range: call_range(call),
                highlight: crate::classify::symbol(crate::tags::SymbolKind::Macro),
                binding_hash: None,
            };
            assert(after.frames =~= state.frames.push(seq![own]));
            assert(after.frames.last() == seq![own]);
        },
        None => {
            assert(after.frames =~= state.frames.push(none));
            assert(after.frames.last() == none);
        },
    }
    lemma_pushed_wf(state.frames, after.frames.last());
}

/// Leaving the macro call at hand merges its frame into the one below;
/// after it no macro call is at hand.
proof fn lemma_leave_call(
    state: State,
    item: SourceElement,
    viewport: Option<TextRange>,
    syntactic: bool,
)
    requires
        state.wf(),
        call_fits(item),
        state.macro_call == Some(item.element.range),
        state.frames.len() >= 2,
        mergeable(state.frames[state.frames.len() - 2], state.frames[state.frames.len() - 1]),
        all_wf(merged(state.frames[state.frames.len() - 2], state.frames[state.frames.len() - 1])),
    ensures
        WalkEvent::Leave(item).wf(),
        state.leaves(item, viewport),
        state.left(item, viewport).wf(),
        state.left(item, viewport).macro_rules == state.macro_rules,
        state.left(item, viewport).rules == state.rules,
        in_view(viewport, item.element.range) ==> state.left(item, viewport).macro_call is None,
        state.left(item, viewport).counts == state.counts,
        state.left(item, viewport).frames == state.frames.drop_last().drop_last().push(
            merged(state.frames[state.frames.len() - 2], state.frames[state.frames.len() - 1]),
        ),
{
    let after = state.left(item, viewport);
    assert(after.frames == popped(state.frames));
    lemma_popped_wf(state.frames);
}

/// Entering a macro definition that is in view opens an empty frame, and
/// makes it the macro definition at hand, of which no token is read yet.
proof fn lemma_enter_rules(
    state: State,
    item: SourceElement,
    viewport: Option<TextRange>,
    syntactic: bool,
)
    requires
        state.wf(),
        rules_fit(item),
        in_view(viewport, item.element.range),
    ensures
        WalkEvent::Enter(item).wf(),
        state.enters(item, viewport, syntactic),
        state.entered(item, viewport, syntactic).wf(),
        state.entered(item, viewport, syntactic).macro_rules == Some(item.element.range),
        steady(state.entered(item, viewport, syntactic), 0),
        state.entered(item, viewport, syntactic).macro_call == state.macro_call,
        state.entered(item, viewport, syntactic).counts == state.counts,
        state.entered(item, viewport, syntactic).frames == state.frames.push(
            entered_frame(state, item, viewport, syntactic),
        ),
        settled_to(
            entered_frame(state, item, viewport, syntactic),
            item.element.range.start,
            item.element.range,
            item.element.range.end,
        ),
{
    let after = state.entered(item, viewport, syntactic);
    let none = Seq::<HighlightedRange>::empty();
    assert(after.frames =~= state.frames.push(none));
    assert(after.frames.last() == none);
    lemma_pushed_wf(state.frames, none);
}

/// Leaving the macro definition at hand merges its frame into the one
/// below; after it no macro definition is at hand.
proof fn lemma_leave_rules(
    state: State,
    item: SourceElement,
    viewport: Option<TextRange>,
    syntactic: bool,
)
    requires
        state.wf(),
        rules_fit(item),
        in_view(viewport, item.element.range),
        state.macro_rules == Some(item.element.range),
        state.frames.len() >= 2,
        mergeable(state.frames[state.frames.len() - 2], state.frames[state.frames.len() - 1]),
        all_wf(merged(state.frames[state.frames.len() - 2], state.frames[state.frames.len() - 1])),
    ensures
        WalkEvent::Leave(item).wf(),
        state.leaves(item, viewport),
        state.left(item, viewport).wf(),
        state.left(item, viewport).macro_rules is None,
        state.left(item, viewport).rules is None,
        state.left(item, viewport).macro_call == state.macro_call,
        state.left(item, viewport).counts == state.counts,
        state.left(item, viewport).frames == state.frames.drop_last().drop_last().push(
            merged(state.frames[state.frames.len() - 2], state.frames[state.frames.len() - 1]),
        ),
{
    let after = state.left(item, viewport);
    assert(after.frames == popped(state.frames));
    lemma_popped_wf(state.frames);
}

/// Ranges that follow one another are in order as a whole.
proof fn lemma_ordered(trees: Seq<SyntaxTree>, span: TextRange, i: int, j: int)
    requires
        nested_in(trees, span),
        0 <= i < j < trees.len(),
    ensures
        trees[i].range().end <= trees[j].range().start,
    decreases j - i,
{
    if i + 1 < j {
        lemma_ordered(trees, span, i, j - 1);
        assert(trees[j - 1].range().end <= trees[j].range().start);
        assert(trees[j - 1].range().wf());
    }
}

/// Where the walk has come to after the first `n` of the trees below the
/// root of `tree`, which is no macro call, if it stood at `start` when the
/// root was entered.
pub open spec fn cursor_after(tree: SyntaxTree, n: int, start: u32) -> u32 {
    if n <= 0 {
        start
    } else {
        tree.children[n - 1].range().end
    }
}

/// Where the walk has come to after the first `n` of the trees below the
/// macro call at the root of `tree`: at the end of the last of them that
/// adds anything.
pub open spec fn call_cursor(tree: SyntaxTree, n: int) -> u32
    decreases n,
{
    if n <= 0 {
        call_start(tree.item)
    } else if mute(tree.children[n - 1]) {
        call_cursor(tree, n - 1)
    } else {
        tree.children[n - 1].range().end
    }
}

/// A tree below a macro call that adds something starts where the walk has
/// come to, or behind.
proof fn lemma_call_cursor(
    tree: SyntaxTree,
    n: int,
    m: int,
    in_rules: bool,
    viewport: Option<TextRange>,
    syntactic: bool,
)
    requires
        well_nested(tree, false, in_rules, viewport, syntactic),
        is_macro_call(tree.item),
        0 <= n <= m < tree.children.len(),
        !mute(tree.children[m]),
    ensures
        call_cursor(tree, n) <= tree.children[m].range().start,
    decreases n,
{
    let child = tree.children[m];
    assert(placed(child, name_range(tree.item)));
    assert(tree.range().encloses(child.range()));
    if n > 0 {
        if mute(tree.children[n - 1]) {
            lemma_call_cursor(tree, n - 1, m, in_rules, viewport, syntactic);
        } else {
            lemma_ordered(tree.children, tree.range(), n - 1, m);
        }
    }
}

/// Whether `after` is a state that a walk within a scope can lead to from
/// `state`: the frames below the innermost are as they were, and so are the
/// macro call and the macro definition at hand; the innermost frame is
/// settled at `cursor`; and no name has been bound, and no bracket opened,
/// more than `bound` times.
pub open spec fn settles(
    state: State,
    after: State,
    cursor: u32,
    span: TextRange,
    reach: u32,
    bound: nat,
) -> bool {
    &&& after.wf()
    &&& steady(after, bound)
    &&& after.macro_call == state.macro_call
    &&& after.macro_rules == state.macro_rules
    &&& after.frames.len() == state.frames.len()
    &&& after.frames.drop_last() == state.frames.drop_last()
    &&& settled_to(after.frames.last(), cursor, span, reach)
    &&& counts_below(after.counts, bound)
}

/// Whether `after` holds a range wherever `before` holds one that ends at
/// `low` or before it.
pub open spec fn keeps(before: Frame, after: Frame, low: u32) -> bool {
    forall|range: TextRange| #[trigger] holds(before, range) && range.end <= low ==> holds(after, range)
}

/// Whether `frame` holds the range of each comment that is looked at among
/// the first `n` trees below the root of `tree`.
pub open spec fn comments_held(
    tree: SyntaxTree,
    n: int,
    frame: Frame,
    viewport: Option<TextRange>,
) -> bool {
    forall|i: int|
        0 <= i < n && shown_comment((#[trigger] tree.children[i]).item, viewport) ==> holds(
            frame,
            tree.children[i].range(),
        )
}

/// Whether a scope at `tree` can be walked from `state` on, seen from the
/// frame around it: the tree is nested well for what is at hand, the
/// innermost frame is settled at `cursor` within `span`, and the tree lies
/// from `cursor` on, and as far as `reach` or from there on.
pub open spec fn walkable(
    tree: SyntaxTree,
    state: State,
    cursor: u32,
    span: TextRange,
    reach: u32,
    bound: nat,
    viewport: Option<TextRange>,
    syntactic: bool,
) -> bool {
    &&& well_nested(tree, state.macro_call is Some, state.macro_rules is Some, viewport, syntactic)
    &&& state.wf()
    &&& steady(state, bound)
    &&& settled_to(state.frames.last(), cursor, span, reach)
    &&& tree.range().wf()
    &&& cursor <= tree.range().start
    &&& tree.range().end <= span.end
    &&& tree.range().end <= reach || reach <= tree.range().start
    &&& counts_below(state.counts, bound)
    &&& bound + size(tree) < u32::MAX
}

/// Whether the walk of `tree` leads from `state` to `after` as it should:
/// the innermost frame is settled at the end of the tree, it holds what it
/// held before the tree, and it holds the range of the root if that is a
/// comment that is looked at.
pub open spec fn walked(
    tree: SyntaxTree,
    state: State,
    after: State,
    cursor: u32,
    span: TextRange,
    reach: u32,
    bound: nat,
    viewport: Option<TextRange>,
) -> bool {
    &&& settles(state, after, tree.range().end, span, reach, bound + size(tree))
    &&& keeps(state.frames.last(), after.frames.last(), cursor)
    &&& shown_comment(tree.item, viewport) ==> holds(after.frames.last(), tree.range())
}

/// What the walk of a tree does to the frames, seen from the frame of the
/// scope around the tree.
///
/// Let the tree be nested well, and let the innermost frame be settled at
/// `cursor` within `span`, where the tree lies from `cursor` on, and as far
/// as `reach` or from there on. Then the events of the walk can be taken
/// one after the other; the frames below the innermost are as they were,
/// and so is what is at hand; and the innermost frame is settled at the end
/// of the tree.
pub proof fn lemma_walk_settles(
    tree: SyntaxTree,
    state: State,
    cursor: u32,
    span: TextRange,
    reach: u32,
    bound: nat,
    viewport: Option<TextRange>,
    syntactic: bool,
)
    requires
        walkable(tree, state, cursor, span, reach, bound, viewport, syntactic),
    ensures
        steps(state, walk(tree), viewport, syntactic),
        walked(
            tree,
            state,
            run_from(state, walk(tree), viewport, syntactic),
            cursor,
            span,
            reach,
            bound,
            viewport,
        ),
    decreases tree, 1int,
{
    if (is_macro_call(tree.item) || is_macro_rules(tree.item)) && !in_view(
        viewport,
        tree.range(),
    ) {
        lemma_well_nested_is_nested(
            tree,
            state.macro_call is Some,
            state.macro_rules is Some,
            viewport,
            syntactic,
        );
        lemma_walk_out_of_view(tree, state, viewport, syntactic);
        lemma_counts_grow(state.counts, bound, bound + size(tree));
    } else if is_macro_call(tree.item) {
        lemma_call_settles(tree, state, cursor, span, reach, bound, viewport, syntactic);
    } else if is_macro_rules(tree.item) {
        lemma_rules_settle(tree, state, cursor, span, reach, bound, viewport, syntactic);
    } else if documented(tree.item, viewport) {
        lemma_documented_settles(tree, state, cursor, span, reach, bound, viewport, syntactic);
    } else {
        lemma_element_settles(tree, state, cursor, span, reach, bound, viewport, syntactic);
    }
}

/// Counts that are below a bound are below any greater bound.
proof fn lemma_counts_grow(counts: Map<Seq<char>, u32>, bound: nat, greater: nat)
    requires
        counts_below(counts, bound),
        bound <= greater,
    ensures
        counts_below(counts, greater),
{
    assert forall|name: Seq<char>| #[trigger] count_of(counts, name) <= greater by {
        assert(count_of(counts, name) <= bound);
    }
}

/// Whether `own` is the frame of the scope at `tree` after the walk of the
/// tree, before the scope is left, and `below` the frame of the scope
/// around it.
pub open spec fn ready_to_merge(
    below: Frame,
    own: Frame,
    tree: SyntaxTree,
    cursor: u32,
    span: TextRange,
    reach: u32,
) -> bool {
    &&& settled_to(below, cursor, span, reach)
    &&& tree.range().wf()
    &&& cursor <= tree.range().start
    &&& tree.range().end <= span.end
    &&& tree.range().end <= reach || reach <= tree.range().start
    &&& solid(own)
    &&& disjoint_sorted(own)
    &&& all_within(own, tree.range())
}

/// The frame of a scope that has been walked can be merged into the frame
/// below it. The merged frame is settled at the end of the scope, holds the
/// ranges of the frame of the scope, and holds what the frame below held
/// before the scope.
proof fn lemma_merge_ready(
    below: Frame,
    own: Frame,
    tree: SyntaxTree,
    cursor: u32,
    span: TextRange,
    reach: u32,
)
    requires
        ready_to_merge(below, own, tree, cursor, span, reach),
    ensures
        mergeable(below, own),
        all_wf(merged(below, own)),
        settled_to(merged(below, own), tree.range().end, span, reach),
        keeps(below, merged(below, own), cursor),
        forall|k: int| 0 <= k < own.len() ==> holds(merged(below, own), (#[trigger] own[k]).range),
{
    lemma_merge_settled_to(below, own, cursor, tree.range(), span, reach);
    assert forall|range: TextRange| #[trigger]
        holds(below, range) && range.end <= cursor implies holds(merged(below, own), range) by {
        if own.len() > 0 {
            assert(tree.range().encloses(own[0].range));
            assert(own[0].range.start < own[0].range.end);
        }
        lemma_merged_keeps(below, own, range);
    }
    assert forall|k: int| 0 <= k < own.len() implies holds(
        merged(below, own),
        (#[trigger] own[k]).range,
    ) by {
        lemma_merged_holds(below, own, k);
    }
}

/// The frames with the innermost replaced are well formed if the frames
/// below it and the new frame are.
proof fn lemma_replaced_wf(frames: Seq<Frame>, res: Seq<Frame>)
    requires
        frames.len() >= 1,
        frames_wf(frames),
        res.len() == frames.len(),
        res.drop_last() == frames.drop_last(),
        solid(res.last()),
    ensures
        frames_wf(res),
{
    assert forall|i: int| 0 <= i < res.len() implies all_wf(#[trigger] res[i]) by {
        if i < res.len() - 1 {
            assert(res[i] == res.drop_last()[i]);
            assert(frames[i] == frames.drop_last()[i]);
        } else {
            assert forall|k: int| 0 <= k < res[i].len() implies (#[trigger] res[i][k]).range.wf() by {}
        }
    }
}

/// Whether the trees below the root of `tree` can be walked from `state`
/// on, which is the state after the root is entered.
pub open spec fn children_walkable(
    tree: SyntaxTree,
    state: State,
    start: u32,
    viewport: Option<TextRange>,
    syntactic: bool,
) -> bool {
    &&& nested_in(tree.children, tree.range())
    &&& tree.range().start <= start
    &&& tree.children.len() > 0 ==> start == tree.range().start
    &&& forall|i: int|
        0 <= i < tree.children.len() ==> well_nested(
            #[trigger] tree.children[i],
            state.macro_call is Some,
            state.macro_rules is Some,
            viewport,
            syntactic,
        )
}

/// The state of a walk after the root of `tree` is entered and the trees
/// below it are walked, seen from `state`, the state before the root was
/// entered: one frame more is open, which is settled within the range of
/// the root; the rest is as `settles` says.
pub open spec fn inside(
    tree: SyntaxTree,
    state: State,
    within: State,
    inner: u32,
    inner_reach: u32,
    bound: nat,
) -> bool {
    &&& within.wf()
    &&& steady(within, bound)
    &&& within.frames.len() == state.frames.len() + 1
    &&& within.frames.drop_last() == state.frames
    &&& settled_to(within.frames.last(), inner, tree.range(), inner_reach)
    &&& counts_below(within.counts, bound)
}

/// Leaving the scope at `tree`, where the frame of the scope is merged
/// into the one below and nothing else happens to the frames, leads to a
/// state as the walk of the tree should.
proof fn lemma_left_walked(
    tree: SyntaxTree,
    state: State,
    within: State,
    left: State,
    cursor: u32,
    span: TextRange,
    reach: u32,
    inner: u32,
    inner_reach: u32,
    bound: nat,
    viewport: Option<TextRange>,
)
    requires
        state.wf(),
        state.frames.len() >= 1,
        ready_to_merge(
            state.frames.last(),
            within.frames.last(),
            tree,
            cursor,
            span,
            reach,
        ),
        inside(tree, state, within, inner, inner_reach, bound + size(tree)),
        left.frames == popped(within.frames),
        left.wf(),
        steady(left, bound + size(tree)),
        left.macro_call == state.macro_call,
        left.macro_rules == state.macro_rules,
        left.counts == within.counts,
        shown_comment(tree.item, viewport) ==> within.frames.last().len() == 1
            && within.frames.last()[0].range == tree.range(),
    ensures
        walked(tree, state, left, cursor, span, reach, bound, viewport),
{
    let below = within.frames[within.frames.len() - 2];
    let own = within.frames.last();
    assert(below == state.frames.last()) by {
        assert(within.frames.drop_last()[within.frames.len() - 2] == below);
    }
    lemma_merge_ready(below, own, tree, cursor, span, reach);
    assert(left.frames.drop_last() =~= state.frames.drop_last());
    assert(left.frames.last() == merged(below, own));
    if shown_comment(tree.item, viewport) {
        assert(holds(merged(below, own), own[0].range));
    }
}

/// The frame of the scope at `tree` is ready to be merged when the trees
/// below the root are walked.
proof fn lemma_ready(
    tree: SyntaxTree,
    state: State,
    within: State,
    cursor: u32,
    span: TextRange,
    reach: u32,
    inner: u32,
    inner_reach: u32,
    bound: nat,
)
    requires
        settled_to(state.frames.last(), cursor, span, reach),
        tree.range().wf(),
        cursor <= tree.range().start,
        tree.range().end <= span.end,
        tree.range().end <= reach || reach <= tree.range().start,
        state.frames.len() >= 1,
        inside(tree, state, within, inner, inner_reach, bound),
    ensures
        ready_to_merge(state.frames.last(), within.frames.last(), tree, cursor, span, reach),
        mergeable(
            within.frames[within.frames.len() - 2],
            within.frames[within.frames.len() - 1],
        ),
        all_wf(
            merged(within.frames[within.frames.len() - 2], within.frames[within.frames.len() - 1]),
        ),
        within.frames[within.frames.len() - 2] == state.frames.last(),
{
    let below = within.frames[within.frames.len() - 2];
    assert(below == state.frames.last()) by {
        assert(within.frames.drop_last()[within.frames.len() - 2] == below);
    }
    lemma_merge_settled_to(below, within.frames.last(), cursor, tree.range(), span, reach);
}

/// The walk of an element that is no macro call and no macro definition,
/// and no node in view with code in its documentation, with the trees
/// below it.
proof fn lemma_element_settles(
    tree: SyntaxTree,
    state: State,
    cursor: u32,
    span: TextRange,
    reach: u32,
    bound: nat,
    viewport: Option<TextRange>,
    syntactic: bool,
)
    requires
        !is_macro_call(tree.item),
        !is_macro_rules(tree.item),
        !documented(tree.item, viewport),
        walkable(tree, state, cursor, span, reach, bound, viewport, syntactic),
    ensures
        steps(state, walk(tree), viewport, syntactic),
        walked(
            tree,
            state,
            run_from(state, walk(tree), viewport, syntactic),
            cursor,
            span,
            reach,
            bound,
            viewport,
        ),
    decreases tree, 0int,
{
    let item = tree.item;
    let enter = seq![WalkEvent::Enter(item)];
    let inner = walk_all(tree.children, tree.children.len() as int);
    let leave = seq![WalkEvent::Leave(item)];
    assert(walk(tree) == enter + inner + leave);
    lemma_enter_fit(state, item, bound, viewport, syntactic);
    let entered = state.entered(item, viewport, syntactic);
    lemma_run_one(state, WalkEvent::Enter(item), viewport, syntactic);
    lemma_children_settle(
        tree,
        tree.children.len() as int,
        entered,
        start_cursor(item),
        bound + 1,
        viewport,
        syntactic,
    );
    let within = run_from(entered, inner, viewport, syntactic);
    lemma_run_concat(state, enter, inner, viewport, syntactic);
    assert(within.frames.drop_last() == state.frames) by {
        assert(entered.frames.drop_last() =~= state.frames);
    }
    let end = cursor_after(tree, tree.children.len() as int, start_cursor(item));
    lemma_ready(tree, state, within, cursor, span, reach, end, tree.range().end, bound + size(tree));
    lemma_leave_fit(within, item, viewport, syntactic);
    let left = within.left(item, viewport);
    lemma_run_one(within, WalkEvent::Leave(item), viewport, syntactic);
    lemma_run_concat(state, enter + inner, leave, viewport, syntactic);
    if shown_comment(item, viewport) {
        assert(inner =~= Seq::<WalkEvent>::empty());
        assert(within == entered);
    }
    lemma_left_walked(
        tree,
        state,
        within,
        left,
        cursor,
        span,
        reach,
        end,
        tree.range().end,
        bound,
        viewport,
    );
}

/// Each range of the code in the documentation comments of the root of
/// `tree`, and each marker, lies within a range of the frame that the frame
/// of the root is merged into, and has ended at the end of the root.
proof fn lemma_docs_enclosed(
    tree: SyntaxTree,
    docs: DocInjection,
    below: Frame,
    own: Frame,
    viewport: Option<TextRange>,
)
    requires
        docs_fit_in(tree, docs, viewport),
        nested_in(tree.children, tree.range()),
        comments_held(tree, tree.children.len() as int, own, viewport),
        forall|k: int| 0 <= k < own.len() ==> holds(merged(below, own), (#[trigger] own[k]).range),
    ensures
        docs_enclosed(merged(below, own), docs, tree.range().end),
{
    let frame = merged(below, own);
    assert forall|range: TextRange| in_comment(tree.children, range, viewport) implies (exists|
        i: int,
    |
        0 <= i < frame.len() && (#[trigger] frame[i]).range.encloses(range)) && range.end
        <= tree.range().end by {
        let c = choose|c: int|
            0 <= c < tree.children.len() && shown_comment(
                (#[trigger] tree.children[c]).item,
                viewport,
            ) && tree.children[c].range().encloses(range);
        assert(holds(own, tree.children[c].range()));
        let k = choose|k: int| 0 <= k < own.len() && (#[trigger] own[k]).range
            == tree.children[c].range();
        assert(holds(frame, own[k].range));
        let i = choose|i: int| 0 <= i < frame.len() && (#[trigger] frame[i]).range == own[k].range;
        assert(frame[i].range.encloses(range));
        assert(tree.range().encloses(tree.children[c].range()));
    }
    assert forall|k: int| 0 <= k < docs.code@.len() implies (exists|i: int|
        0 <= i < frame.len() && (#[trigger] frame[i]).range.encloses(
            (#[trigger] docs.code@[k]).range,
        )) && docs.code@[k].range.end <= tree.range().end by {
        assert(in_comment(tree.children, docs.code@[k].range, viewport));
    }
    assert forall|k: int| 0 <= k < docs.comments@.len() implies (exists|i: int|
        0 <= i < frame.len() && (#[trigger] frame[i]).range.encloses(
            (#[trigger] docs.comments@[k]).range,
        )) && docs.comments@[k].range.end <= tree.range().end by {
        assert(in_comment(tree.children, docs.comments@[k].range, viewport));
    }
}

/// The injection of the code in the documentation comments of the root of
/// `tree` keeps what the frame held before the tree.
proof fn lemma_docs_keep_below(
    tree: SyntaxTree,
    docs: DocInjection,
    frames: Seq<Frame>,
    below: Frame,
    cursor: u32,
    span: TextRange,
    reach: u32,
    viewport: Option<TextRange>,
)
    requires
        frames.len() >= 1,
        settled_to(frames.last(), tree.range().end, span, reach),
        docs_fit_in(tree, docs, viewport),
        nested_in(tree.children, tree.range()),
        docs_enclosed(frames.last(), docs, tree.range().end),
        keeps(below, frames.last(), cursor),
        cursor <= tree.range().start,
    ensures
        keeps(below, with_docs(frames, docs).last(), cursor),
{
    assert forall|range: TextRange| #[trigger]
        holds(below, range) && range.end <= cursor implies holds(
        with_docs(frames, docs).last(),
        range,
    ) by {
        assert forall|inner: TextRange| in_comment(
            tree.children,
            inner,
            viewport,
        ) && inner.start < inner.end implies !range.encloses(inner) by {
            let c = choose|c: int|
                0 <= c < tree.children.len() && shown_comment(
                    (#[trigger] tree.children[c]).item,
                    viewport,
                ) && tree.children[c].range().encloses(inner);
            assert(tree.range().encloses(tree.children[c].range()));
        }
        assert forall|k: int| 0 <= k < docs.code@.len() implies !range.encloses(
            (#[trigger] docs.code@[k]).range,
        ) by {
            assert(in_comment(tree.children, docs.code@[k].range, viewport));
            assert(docs.code@[k].range.start < docs.code@[k].range.end);
        }
        assert forall|k: int| 0 <= k < docs.comments@.len() implies !range.encloses(
            (#[trigger] docs.comments@[k]).range,
        ) by {
            assert(in_comment(tree.children, docs.comments@[k].range, viewport));
            assert(docs.comments@[k].range.start < docs.comments@[k].range.end);
        }
        lemma_docs_keep(frames, docs, tree.range().end, span, reach, range);
    }
}

/// The code in the documentation comments of the root of `tree` can be
/// injected when the root is left: the frame of the root can be merged
/// into the one below, the code fits into the merged frame, and the frame
/// that comes of it is settled at the end of the tree and holds what the
/// frame below held before the tree.
proof fn lemma_docs_ready(
    tree: SyntaxTree,
    state: State,
    within: State,
    docs: DocInjection,
    cursor: u32,
    span: TextRange,
    reach: u32,
    inner: u32,
    inner_reach: u32,
    bound: nat,
    viewport: Option<TextRange>,
)
    requires
        state.wf(),
        state.frames.len() >= 1,
        ready_to_merge(
            state.frames.last(),
            within.frames.last(),
            tree,
            cursor,
            span,
            reach,
        ),
        inside(tree, state, within, inner, inner_reach, bound),
        docs_fit_in(tree, docs, viewport),
        nested_in(tree.children, tree.range()),
        comments_held(tree, tree.children.len() as int, within.frames.last(), viewport),
    ensures
        mergeable(
            within.frames[within.frames.len() - 2],
            within.frames[within.frames.len() - 1],
        ),
        frames_wf(with_docs(popped(within.frames), docs)),
        with_docs(popped(within.frames), docs).len() == state.frames.len(),
        with_docs(popped(within.frames), docs).drop_last() == state.frames.drop_last(),
        settled_to(with_docs(popped(within.frames), docs).last(), tree.range().end, span, reach),
        keeps(state.frames.last(), with_docs(popped(within.frames), docs).last(), cursor),
{
    let below = within.frames[within.frames.len() - 2];
    let own = within.frames.last();
    assert(below == state.frames.last()) by {
        assert(within.frames.drop_last()[within.frames.len() - 2] == below);
    }
    lemma_merge_ready(below, own, tree, cursor, span, reach);
    let merged_frames = popped(within.frames);
    assert(merged_frames.last() == merged(below, own));
    assert(merged_frames.drop_last() =~= state.frames.drop_last());
    lemma_docs_enclosed(tree, docs, below, own, viewport);
    lemma_docs_settle(merged_frames, docs, tree.range().end, span, reach);
    lemma_docs_keep_below(tree, docs, merged_frames, below, cursor, span, reach, viewport);
    lemma_popped_wf(within.frames);
    lemma_replaced_wf(merged_frames, with_docs(merged_frames, docs));
}

/// The walk of a node in view with code in its documentation, with the
/// trees below it.
proof fn lemma_documented_settles(
    tree: SyntaxTree,
    state: State,
    cursor: u32,
    span: TextRange,
    reach: u32,
    bound: nat,
    viewport: Option<TextRange>,
    syntactic: bool,
)
    requires
        !is_macro_call(tree.item),
        !is_macro_rules(tree.item),
        documented(tree.item, viewport),
        walkable(tree, state, cursor, span, reach, bound, viewport, syntactic),
    ensures
        steps(state, walk(tree), viewport, syntactic),
        walked(
            tree,
            state,
            run_from(state, walk(tree), viewport, syntactic),
            cursor,
            span,
            reach,
            bound,
            viewport,
        ),
    decreases tree, 0int,
{
    let item = tree.item;
    let docs = item.doc_injection.unwrap();
    let enter = seq![WalkEvent::Enter(item)];
    let inner = walk_all(tree.children, tree.children.len() as int);
    let leave = seq![WalkEvent::Leave(item)];
    assert(walk(tree) == enter + inner + leave);
    lemma_enter_fit(state, item, bound, viewport, syntactic);
    let entered = state.entered(item, viewport, syntactic);
    lemma_run_one(state, WalkEvent::Enter(item), viewport, syntactic);
    lemma_children_settle(
        tree,
        tree.children.len() as int,
        entered,
        start_cursor(item),
        bound + 1,
        viewport,
        syntactic,
    );
    let within = run_from(entered, inner, viewport, syntactic);
    lemma_run_concat(state, enter, inner, viewport, syntactic);
    assert(within.frames.drop_last() == state.frames) by {
        assert(entered.frames.drop_last() =~= state.frames);
    }
    let end = cursor_after(tree, tree.children.len() as int, start_cursor(item));
    lemma_ready(tree, state, within, cursor, span, reach, end, tree.range().end, bound + size(tree));
    lemma_docs_ready(
        tree,
        state,
        within,
        docs,
        cursor,
        span,
        reach,
        end,
        tree.range().end,
        bound + size(tree),
        viewport,
    );
    lemma_leave_docs(within, item, viewport, syntactic);
    lemma_run_one(within, WalkEvent::Leave(item), viewport, syntactic);
    lemma_run_concat(state, enter + inner, leave, viewport, syntactic);
}

/// The walk of a macro definition that is in view, with the trees below
/// it.
proof fn lemma_rules_settle(
    tree: SyntaxTree,
    state: State,
    cursor: u32,
    span: TextRange,
    reach: u32,
    bound: nat,
    viewport: Option<TextRange>,
    syntactic: bool,
)
    requires
        is_macro_rules(tree.item),
        in_view(viewport, tree.range()),
        walkable(tree, state, cursor, span, reach, bound, viewport, syntactic),
    ensures
        steps(state, walk(tree), viewport, syntactic),
        walked(
            tree,
            state,
            run_from(state, walk(tree), viewport, syntactic),
            cursor,
            span,
            reach,
            bound,
            viewport,
        ),
    decreases tree, 0int,
{
    let item = tree.item;
    let enter = seq![WalkEvent::Enter(item)];
    let inner = walk_all(tree.children, tree.children.len() as int);
    let leave = seq![WalkEvent::Leave(item)];
    assert(walk(tree) == enter + inner + leave);
    lemma_enter_rules(state, item, viewport, syntactic);
    lemma_counts_grow(state.counts, bound, bound + 1);
    let entered = state.entered(item, viewport, syntactic);
    lemma_run_one(state, WalkEvent::Enter(item), viewport, syntactic);
    lemma_children_settle(
        tree,
        tree.children.len() as int,
        entered,
        tree.range().start,
        bound + 1,
        viewport,
        syntactic,
    );
    let within = run_from(entered, inner, viewport, syntactic);
    lemma_run_concat(state, enter, inner, viewport, syntactic);
    assert(within.frames.drop_last() == state.frames) by {
        assert(entered.frames.drop_last() =~= state.frames);
    }
    let end = cursor_after(tree, tree.children.len() as int, tree.range().start);
    lemma_ready(tree, state, within, cursor, span, reach, end, tree.range().end, bound + size(tree));
    lemma_leave_rules(within, item, viewport, syntactic);
    let left = within.left(item, viewport);
    lemma_run_one(within, WalkEvent::Leave(item), viewport, syntactic);
    lemma_run_concat(state, enter + inner, leave, viewport, syntactic);
    lemma_left_walked(
        tree,
        state,
        within,
        left,
        cursor,
        span,
        reach,
        end,
        tree.range().end,
        bound,
        viewport,
    );
}

/// The walk of a macro call that is in view, with the trees below it.
proof fn lemma_call_settles(
    tree: SyntaxTree,
    state: State,
    cursor: u32,
    span: TextRange,
    reach: u32,
    bound: nat,
    viewport: Option<TextRange>,
    syntactic: bool,
)
    requires
        is_macro_call(tree.item),
        in_view(viewport, tree.range()),
        walkable(tree, state, cursor, span, reach, bound, viewport, syntactic),
    ensures
        steps(state, walk(tree), viewport, syntactic),
        walked(
            tree,
            state,
            run_from(state, walk(tree), viewport, syntactic),
            cursor,
            span,
            reach,
            bound,
            viewport,
        ),
    decreases tree, 0int,
{
    let item = tree.item;
    let enter = seq![WalkEvent::Enter(item)];
    let inner = walk_all(tree.children, tree.children.len() as int);
    let leave = seq![WalkEvent::Leave(item)];
    assert(walk(tree) == enter + inner + leave);
    lemma_enter_call(state, item, viewport, syntactic);
    lemma_counts_grow(state.counts, bound, bound + 1);
    let entered = state.entered(item, viewport, syntactic);
    lemma_run_one(state, WalkEvent::Enter(item), viewport, syntactic);
    lemma_call_children_settle(
        tree,
        tree.children.len() as int,
        entered,
        bound + 1,
        viewport,
        syntactic,
    );
    let within = run_from(entered, inner, viewport, syntactic);
    lemma_run_concat(state, enter, inner, viewport, syntactic);
    assert(within.frames.drop_last() == state.frames) by {
        assert(entered.frames.drop_last() =~= state.frames);
    }
    let end = call_cursor(tree, tree.children.len() as int);
    lemma_ready(tree, state, within, cursor, span, reach, end, call_reach(item), bound + size(tree));
    lemma_leave_call(within, item, viewport, syntactic);
    let left = within.left(item, viewport);
    lemma_run_one(within, WalkEvent::Leave(item), viewport, syntactic);
    lemma_run_concat(state, enter + inner, leave, viewport, syntactic);
    lemma_left_walked(
        tree,
        state,
        within,
        left,
        cursor,
        span,
        reach,
        end,
        call_reach(item),
        bound,
        viewport,
    );
}

/// What the walks of the first `n` trees below an element that is no macro
/// call do to the frame of the element: it stays settled, at the end of the
/// last of them, and holds the range of each comment among them that is
/// looked at.
proof fn lemma_children_settle(
    tree: SyntaxTree,
    n: int,
    state: State,
    start: u32,
    bound: nat,
    viewport: Option<TextRange>,
    syntactic: bool,
)
    requires
        children_walkable(tree, state, start, viewport, syntactic),
        0 <= n <= tree.children.len(),
        state.wf(),
        steady(state, bound),
        settled_to(state.frames.last(), start, tree.range(), tree.range().end),
        counts_below(state.counts, bound),
        bound + sizes(tree.children, n) < u32::MAX,
    ensures
        steps(state, walk_all(tree.children, n), viewport, syntactic),
        settles(
            state,
            run_from(state, walk_all(tree.children, n), viewport, syntactic),
            cursor_after(tree, n, start),
            tree.range(),
            tree.range().end,
            bound + sizes(tree.children, n),
        ),
        comments_held(
            tree,
            n,
            run_from(state, walk_all(tree.children, n), viewport, syntactic).frames.last(),
            viewport,
        ),
    decreases tree.children, n,
{
    if n > 0 {
        let trees = tree.children;
        let before = walk_all(trees, n - 1);
        let child = trees[n - 1];
        lemma_children_settle(tree, n - 1, state, start, bound, viewport, syntactic);
        let upto = run_from(state, before, viewport, syntactic);
        let cursor = cursor_after(tree, n - 1, start);
        assert(well_nested(
            child,
            state.macro_call is Some,
            state.macro_rules is Some,
            viewport,
            syntactic,
        ));
        assert(tree.range().encloses(child.range()));
        assert(cursor <= child.range().start) by {
            if n - 1 > 0 {
                assert(trees[n - 2].range().end <= trees[n - 1].range().start);
            }
        }
        lemma_walk_settles(
            child,
            upto,
            cursor,
            tree.range(),
            tree.range().end,
            bound + sizes(trees, n - 1),
            viewport,
            syntactic,
        );
        lemma_run_concat(state, before, walk(child), viewport, syntactic);
        let after = run_from(upto, walk(child), viewport, syntactic);
        assert(after.frames.drop_last() =~= state.frames.drop_last());
        lemma_comments_step(
            tree,
            n,
            upto.frames.last(),
            after.frames.last(),
            cursor,
            start,
            viewport,
        );
    }
}

/// A frame that holds the comments among the first trees below an element
/// holds them after the walk of the next tree, and the next one too if it
/// is a comment.
proof fn lemma_comments_step(
    tree: SyntaxTree,
    n: int,
    upto: Frame,
    after: Frame,
    cursor: u32,
    start: u32,
    viewport: Option<TextRange>,
)
    requires
        nested_in(tree.children, tree.range()),
        0 < n <= tree.children.len(),
        cursor == cursor_after(tree, n - 1, start),
        comments_held(tree, n - 1, upto, viewport),
        keeps(upto, after, cursor),
        shown_comment(tree.children[n - 1].item, viewport) ==> holds(
            after,
            tree.children[n - 1].range(),
        ),
    ensures
        comments_held(tree, n, after, viewport),
{
    let trees = tree.children;
    assert forall|i: int|
        0 <= i < n && shown_comment((#[trigger] trees[i]).item, viewport) implies holds(
        after,
        trees[i].range(),
    ) by {
        if i < n - 1 {
            assert(holds(upto, trees[i].range()));
            assert(trees[i].range().wf() && trees[n - 2].range().wf());
            if i < n - 2 {
                lemma_ordered(trees, tree.range(), i, n - 2);
            }
            assert(trees[i].range().end <= cursor);
        }
    }
}

/// What the walks of the first `n` trees below a macro call do to the frame
/// of the call: it stays settled, at the end of the last of them that adds
/// anything.
proof fn lemma_call_children_settle(
    tree: SyntaxTree,
    n: int,
    state: State,
    bound: nat,
    viewport: Option<TextRange>,
    syntactic: bool,
)
    requires
        well_nested(tree, false, state.macro_rules is Some, viewport, syntactic),
        is_macro_call(tree.item),
        0 <= n <= tree.children.len(),
        state.wf(),
        steady(state, bound),
        state.macro_call is Some,
        settled_to(
            state.frames.last(),
            call_start(tree.item),
            tree.range(),
            call_reach(tree.item),
        ),
        counts_below(state.counts, bound),
        bound + sizes(tree.children, n) < u32::MAX,
    ensures
        steps(state, walk_all(tree.children, n), viewport, syntactic),
        settles(
            state,
            run_from(state, walk_all(tree.children, n), viewport, syntactic),
            call_cursor(tree, n),
            tree.range(),
            call_reach(tree.item),
            bound + sizes(tree.children, n),
        ),
    decreases tree.children, n,
{
    if n > 0 {
        let trees = tree.children;
        let before = walk_all(trees, n - 1);
        let child = trees[n - 1];
        lemma_call_children_settle(tree, n - 1, state, bound, viewport, syntactic);
        let upto = run_from(state, before, viewport, syntactic);
        let cursor = call_cursor(tree, n - 1);
        lemma_run_concat(state, before, walk(child), viewport, syntactic);
        if mute(child) {
            lemma_walk_mute(child, upto, bound + sizes(trees, n - 1), viewport, syntactic);
            let after = run_from(upto, walk(child), viewport, syntactic);
            lemma_counts_grow(after.counts, bound + sizes(trees, n - 1), bound + sizes(trees, n));
        } else {
            assert(well_nested(child, true, state.macro_rules is Some, viewport, syntactic));
            assert(placed(child, name_range(tree.item)));
            assert(tree.range().encloses(child.range()));
            lemma_call_cursor(tree, n - 1, n - 1, state.macro_rules is Some, viewport, syntactic);
            lemma_walk_settles(
                child,
                upto,
                cursor,
                tree.range(),
                call_reach(tree.item),
                bound + sizes(trees, n - 1),
                viewport,
                syntactic,
            );
            let after = run_from(upto, walk(child), viewport, syntactic);
            assert(after.frames.drop_last() =~= state.frames.drop_last());
        }
    }
}

/// The walk of a tree that is nested well can be highlighted; and its
/// highlighted ranges are not empty, lie within the range of the tree, are
/// sorted, and do not overlap.
pub proof fn lemma_nested_walk_is_sound(
    tree: SyntaxTree,
    viewport: Option<TextRange>,
    syntactic: bool,
)
    requires
        well_nested(tree, false, false, viewport, syntactic),
        tree.range().wf(),
        size(tree) < u32::MAX,
    ensures
        sound(walk(tree), viewport, syntactic),
        solid(highlighted(walk(tree), viewport, syntactic)),
        disjoint_sorted(highlighted(walk(tree), viewport, syntactic)),
        all_within(highlighted(walk(tree), viewport, syntactic), tree.range()),
{
    let state = State::initial();
    let span = tree.range();
    assert(state.frames.last() == Seq::<HighlightedRange>::empty());
    assert(frames_wf(state.frames)) by {
        assert forall|i: int| 0 <= i < state.frames.len() implies all_wf(
            #[trigger] state.frames[i],
        ) by {}
    }
    assert(counts_below(state.counts, 0));
    lemma_walk_settles(tree, state, span.start, span, span.end, 0, viewport, syntactic);
    let after = run_from(state, walk(tree), viewport, syntactic);
    assert(after.frames.len() == 1);
    assert(after.frames[0] == after.frames.last());
    lemma_settled_is_flat(after.frames[0], span.end, span, span.end);
    lemma_steps_are_sound(walk(tree), viewport, syntactic);
    lemma_run_from_initial(walk(tree), viewport, syntactic);
}

/// A tree of elements, as it is handed to the highlighter.
#[derive(Debug)]
pub struct Tree {
    pub item: SourceElement,
    pub children: Vec<Tree>,
}

/// The tree as a value.
pub open spec fn tree_view(tree: Tree) -> SyntaxTree
    decreases tree, 0int,
{
    SyntaxTree {
        item: tree.item,
        children: tree_views(tree.children@, tree.children@.len() as int),
    }
}

/// The first `n` of `trees` as values.
pub open spec fn tree_views(trees: Seq<Tree>, n: int) -> Seq<SyntaxTree>
    decreases trees, n,
{
    if n <= 0 || n > trees.len() {
        Seq::empty()
    } else {
        tree_views(trees, n - 1).push(tree_view(trees[n - 1]))
    }
}

impl View for Tree {
    type V = SyntaxTree;

    open spec fn view(&self) -> SyntaxTree {
        tree_view(*self)
    }
}

/// The values of trees are the values of each of them, in their order.
proof fn lemma_tree_views(trees: Seq<Tree>, n: int)
    requires
        0 <= n <= trees.len(),
    ensures
        tree_views(trees, n).len() == n,
        forall|i: int| 0 <= i < n ==> #[trigger] tree_views(trees, n)[i] == tree_view(trees[i]),
    decreases n,
{
    if n > 0 {
        lemma_tree_views(trees, n - 1);
    }
}

/// The walks of the first trees do not depend on the trees behind them.
proof fn lemma_walk_all_of_views(trees: Seq<Tree>, n: int)
    requires
        0 <= n <= trees.len(),
    ensures
        n < trees.len() ==> walk_all(tree_views(trees, trees.len() as int), n + 1) == walk_all(
            tree_views(trees, trees.len() as int),
            n,
        ) + walk(tree_view(trees[n])),
{
    lemma_tree_views(trees, trees.len() as int);
}

/// The walk of a tree falls into three parts: the root is entered, the
/// trees below it are walked, and the root is left.
proof fn lemma_walk_parts(
    tree: SyntaxTree,
    state: State,
    viewport: Option<TextRange>,
    syntactic: bool,
)
    ensures
        ({
            let entered = state.entered(tree.item, viewport, syntactic);
            let inner = walk_all(tree.children, tree.children.len() as int);
            let within = run_from(entered, inner, viewport, syntactic);
            &&& steps(state, walk(tree), viewport, syntactic) == {
                &&& tree.item.wf()
                &&& state.enters(tree.item, viewport, syntactic)
                &&& steps(entered, inner, viewport, syntactic)
                &&& within.leaves(tree.item, viewport)
            }
            &&& run_from(state, walk(tree), viewport, syntactic) == within.left(
                tree.item,
                viewport,
            )
        }),
{
    let enter = seq![WalkEvent::Enter(tree.item)];
    let inner = walk_all(tree.children, tree.children.len() as int);
    let leave = seq![WalkEvent::Leave(tree.item)];
    let entered = state.entered(tree.item, viewport, syntactic);
    let within = run_from(entered, inner, viewport, syntactic);
    assert(walk(tree) == enter + inner + leave);
    lemma_run_concat(state, enter + inner, leave, viewport, syntactic);
    lemma_run_concat(state, enter, inner, viewport, syntactic);
    lemma_run_one(state, WalkEvent::Enter(tree.item), viewport, syntactic);
    lemma_run_one(within, WalkEvent::Leave(tree.item), viewport, syntactic);
}

/// The walks of the first `n + 1` trees are the walks of the first `n`,
/// and then the walk of the next one.
proof fn lemma_walk_all_parts(
    trees: Seq<Tree>,
    n: int,
    state: State,
    viewport: Option<TextRange>,
    syntactic: bool,
)
    requires
        0 <= n < trees.len(),
    ensures
        ({
            let views = tree_views(trees, trees.len() as int);
            let upto = run_from(state, walk_all(views, n), viewport, syntactic);
            &&& steps(state, walk_all(views, n + 1), viewport, syntactic) == (steps(
                state,
                walk_all(views, n),
                viewport,
                syntactic,
            ) && steps(upto, walk(trees[n]@), viewport, syntactic))
            &&& run_from(state, walk_all(views, n + 1), viewport, syntactic) == run_from(
                upto,
                walk(trees[n]@),
                viewport,
                syntactic,
            )
            &&& steps(state, walk_all(views, trees.len() as int), viewport, syntactic) ==> steps(
                state,
                walk_all(views, n + 1),
                viewport,
                syntactic,
            )
        }),
{
    let views = tree_views(trees, trees.len() as int);
    lemma_tree_views(trees, trees.len() as int);
    lemma_walk_all_of_views(trees, n);
    lemma_run_concat(state, walk_all(views, n), walk(trees[n]@), viewport, syntactic);
    lemma_walk_all_prefix(views, n + 1);
    if steps(state, walk_all(views, trees.len() as int), viewport, syntactic) {
        lemma_steps_prefix(
            state,
            walk_all(views, trees.len() as int),
            walk_all(views, n + 1).len() as int,
            viewport,
            syntactic,
        );
    }
}

/// Takes the events of the walk of `tree`, one after the other.
pub fn walk_tree(highlighter: &mut Highlighter, tree: &Tree)
    requires
        old(highlighter).wf(),
        steps(
            old(highlighter)@,
            walk(tree@),
            old(highlighter).viewport(),
            old(highlighter).syntactic(),
        ),
    ensures
        final(highlighter).wf(),
        final(highlighter)@ == run_from(
            old(highlighter)@,
            walk(tree@),
            old(highlighter).viewport(),
            old(highlighter).syntactic(),
        ),
        final(highlighter).viewport() == old(highlighter).viewport(),
        final(highlighter).syntactic() == old(highlighter).syntactic(),
{
    let walked = try_walk_tree(highlighter, tree);
    assert(walked);
}

/// The walks of the first trees are the first events of the walks of all
/// of them.
proof fn lemma_walk_all_prefix(trees: Seq<SyntaxTree>, n: int)
    requires
        0 <= n <= trees.len(),
    ensures
        walk_all(trees, n).len() <= walk_all(trees, trees.len() as int).len(),
        walk_all(trees, trees.len() as int).take(walk_all(trees, n).len() as int) == walk_all(
            trees,
            n,
        ),
    decreases trees.len() - n,
{
    let all = walk_all(trees, trees.len() as int);
    if n < trees.len() {
        lemma_walk_all_prefix(trees, n + 1);
        let next = walk_all(trees, n + 1);
        assert(next == walk_all(trees, n) + walk(trees[n]));
        assert(all.take(walk_all(trees, n).len() as int) =~= next.take(
            walk_all(trees, n).len() as int,
        ));
        assert(next.take(walk_all(trees, n).len() as int) =~= walk_all(trees, n));
    } else {
        assert(all.take(all.len() as int) =~= all);
    }
}

/// Highlights a tree that is nested well: the result holds a range for
/// each element in view that has a highlight, cut up where the ranges of
/// elements inside it lie. The ranges are not empty, lie within the range
/// of the tree, are sorted by start, and no two of them overlap.
pub fn highlight_tree(
    tree: &Tree,
    range_to_highlight: Option<TextRange>,
    syntactic_name_ref_highlighting: bool,
) -> (res: Vec<HighlightedRange>)
    requires
        well_nested(tree@, false, false, range_to_highlight, syntactic_name_ref_highlighting),
        tree@.range().wf(),
        size(tree@) < u32::MAX,
    ensures
        res@ == highlighted(walk(tree@), range_to_highlight, syntactic_name_ref_highlighting),
        solid(res@),
        crate::range_stack::sorted(res@),
        disjoint_sorted(res@),
        all_within(res@, tree@.range()),
{
    proof {
        lemma_nested_walk_is_sound(tree@, range_to_highlight, syntactic_name_ref_highlighting);
    }
    try_highlight_tree(tree, range_to_highlight, syntactic_name_ref_highlighting).unwrap()
}

/// The events of a walk that can be highlighted can be taken one after the
/// other, from the first state on.
pub proof fn lemma_sound_steps(
    events: Seq<WalkEvent>,
    viewport: Option<TextRange>,
    syntactic: bool,
)
    requires
        sound(events, viewport, syntactic),
    ensures
        steps(State::initial(), events, viewport, syntactic),
{
    lemma_sound_prefix_steps(events, events.len() as int, viewport, syntactic);
    assert(events.take(events.len() as int) =~= events);
}

proof fn lemma_sound_prefix_steps(
    events: Seq<WalkEvent>,
    n: int,
    viewport: Option<TextRange>,
    syntactic: bool,
)
    requires
        sound(events, viewport, syntactic),
        0 <= n <= events.len(),
    ensures
        steps(State::initial(), events.take(n), viewport, syntactic),
    decreases n,
{
    if n > 0 {
        lemma_sound_prefix_steps(events, n - 1, viewport, syntactic);
        let upto = events.take(n);
        assert(upto.drop_last() =~= events.take(n - 1));
        assert(upto.last() == events[n - 1]);
        assert(step_ok(events, n - 1, viewport, syntactic));
        reveal(step_ok);
        lemma_run_from_initial(events.take(n - 1), viewport, syntactic);
    }
}

/// Takes the events of the walk of `tree` one after the other, as far as
/// they can be taken, and says whether all of them were taken.
pub fn try_walk_tree(highlighter: &mut Highlighter, tree: &Tree) -> (ok: bool)
    requires
        old(highlighter).wf(),
    ensures
        final(highlighter).wf(),
        ok == steps(
            old(highlighter)@,
            walk(tree@),
            old(highlighter).viewport(),
            old(highlighter).syntactic(),
        ),
        ok ==> final(highlighter)@ == run_from(
            old(highlighter)@,
            walk(tree@),
            old(highlighter).viewport(),
            old(highlighter).syntactic(),
        ),
        final(highlighter).viewport() == old(highlighter).viewport(),
        final(highlighter).syntactic() == old(highlighter).syntactic(),
    decreases *tree, 1int,
{
    proof {
        lemma_walk_parts(tree@, highlighter@, highlighter.viewport(), highlighter.syntactic());
    }
    if !tree.item.is_wf() {
        return false;
    }
    if !highlighter.try_enter(&tree.item) {
        return false;
    }
    if !try_walk_trees(highlighter, tree) {
        return false;
    }
    highlighter.try_leave(&tree.item)
}

/// Takes the events of the walks of the trees below the root of `tree` one
/// after the other, as far as they can be taken, and says whether all of
/// them were taken.
fn try_walk_trees(highlighter: &mut Highlighter, tree: &Tree) -> (ok: bool)
    requires
        old(highlighter).wf(),
    ensures
        final(highlighter).wf(),
        ok == steps(
            old(highlighter)@,
            walk_all(tree@.children, tree@.children.len() as int),
            old(highlighter).viewport(),
            old(highlighter).syntactic(),
        ),
        ok ==> final(highlighter)@ == run_from(
            old(highlighter)@,
            walk_all(tree@.children, tree@.children.len() as int),
            old(highlighter).viewport(),
            old(highlighter).syntactic(),
        ),
        final(highlighter).viewport() == old(highlighter).viewport(),
        final(highlighter).syntactic() == old(highlighter).syntactic(),
    decreases *tree, 0int,
{
    let ghost viewport = highlighter.viewport();
    let ghost syntactic = highlighter.syntactic();
    let ghost views = tree_views(tree.children@, tree.children@.len() as int);
    let ghost entered = highlighter@;
    proof {
        lemma_tree_views(tree.children@, tree.children@.len() as int);
    }
    let mut ok = true;
    let mut i: usize = 0;
    while i < tree.children.len() && ok
        invariant
            0 <= i <= tree.children@.len(),
            views == tree_views(tree.children@, tree.children@.len() as int),
            highlighter.wf(),
            highlighter.viewport() == viewport,
            highlighter.syntactic() == syntactic,
            ok ==> steps(entered, walk_all(views, i as int), viewport, syntactic),
            ok ==> highlighter@ == run_from(entered, walk_all(views, i as int), viewport, syntactic),
            !ok ==> !steps(
                entered,
                walk_all(views, tree.children@.len() as int),
                viewport,
                syntactic,
            ),
        decreases tree.children@.len() - i + (if ok { 1int } else { 0int }),
    {
        proof {
            lemma_walk_all_parts(tree.children@, i as int, entered, viewport, syntactic);
        }
        ok = try_walk_tree(highlighter, &tree.children[i]);
        i += 1;
    }
    ok
}

/// Highlights a tree as `highlight_tree` does if its walk can be
/// highlighted, and yields nothing if it cannot.
pub fn try_highlight_tree(
    tree: &Tree,
    range_to_highlight: Option<TextRange>,
    syntactic_name_ref_highlighting: bool,
) -> (res: Option<Vec<HighlightedRange>>)
    ensures
        res is Some == sound(walk(tree@), range_to_highlight, syntactic_name_ref_highlighting),
        res matches Some(ranges) ==> {
            &&& ranges@ == highlighted(
                walk(tree@),
                range_to_highlight,
                syntactic_name_ref_highlighting,
            )
            &&& all_wf(ranges@)
            &&& crate::range_stack::sorted(ranges@)
            &&& disjoint_sorted(ranges@)
        },
{
    let mut highlighter = Highlighter::new(range_to_highlight, syntactic_name_ref_highlighting);
    proof {
        lemma_run_from_initial(walk(tree@), range_to_highlight, syntactic_name_ref_highlighting);
        if sound(walk(tree@), range_to_highlight, syntactic_name_ref_highlighting) {
            lemma_sound_steps(walk(tree@), range_to_highlight, syntactic_name_ref_highlighting);
        }
    }
    if !try_walk_tree(&mut highlighter, tree) {
        return None;
    }
    let res = highlighter.try_finish();
    proof {
        if res is Some {
            lemma_steps_are_sound(walk(tree@), range_to_highlight, syntactic_name_ref_highlighting);
        }
    }
    res
}

} // verus!
