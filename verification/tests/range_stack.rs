use ide_core::range_stack::{
    position, sort_by_start, HighlightedRange, HighlightedRangeStack, Probe,
};
use ide_core::tags::{Highlight, HighlightModifier, HighlightTag, SymbolKind};
use ide_core::text_range::TextRange;

fn hr(start: u32, end: u32, tag: HighlightTag) -> HighlightedRange {
    HighlightedRange {
        range: TextRange::new(start, end),
        highlight: Highlight::new(tag),
        binding_hash: None,
    }
}

#[test]
fn pop_splits_parent_around_child() {
    let mut stack = HighlightedRangeStack::new();
    stack.push();
    stack.add(hr(0, 23, HighlightTag::Attribute));
    stack.push();
    stack.add(hr(16, 21, HighlightTag::StringLiteral));
    stack.pop();
    stack.pop();
    assert_eq!(
        stack.flattened(),
        vec![
            hr(0, 16, HighlightTag::Attribute),
            hr(16, 21, HighlightTag::StringLiteral),
            hr(21, 23, HighlightTag::Attribute),
        ]
    );
}

#[test]
fn string_with_injected_range_flattens_to_three() {
    let mut stack = HighlightedRangeStack::new();
    stack.add(hr(10, 20, HighlightTag::StringLiteral));
    stack.push();
    stack.add(hr(12, 18, HighlightTag::Keyword));
    stack.pop();
    assert_eq!(
        stack.flattened(),
        vec![
            hr(10, 12, HighlightTag::StringLiteral),
            hr(12, 18, HighlightTag::Keyword),
            hr(18, 20, HighlightTag::StringLiteral),
        ]
    );
}

#[test]
fn push_then_pop_leaves_parent_unchanged() {
    let mut stack = HighlightedRangeStack::new();
    stack.add(hr(0, 5, HighlightTag::Keyword));
    stack.add(hr(6, 9, HighlightTag::Comment));
    stack.push();
    stack.pop();
    assert_eq!(
        stack.flattened(),
        vec![hr(0, 5, HighlightTag::Keyword), hr(6, 9, HighlightTag::Comment)]
    );
}

#[test]
fn pop_drops_zero_length_pieces() {
    // The child starts where the parent starts: no piece before it.
    let mut stack = HighlightedRangeStack::new();
    stack.add(hr(0, 10, HighlightTag::Attribute));
    stack.push();
    stack.add(hr(0, 4, HighlightTag::Keyword));
    stack.pop();
    assert_eq!(
        stack.flattened(),
        vec![hr(0, 4, HighlightTag::Keyword), hr(4, 10, HighlightTag::Attribute)]
    );

    // The child covers the parent: no piece of the parent is left.
    let mut stack = HighlightedRangeStack::new();
    stack.add(hr(3, 7, HighlightTag::Attribute));
    stack.push();
    stack.add(hr(3, 7, HighlightTag::Keyword));
    stack.pop();
    assert_eq!(stack.flattened(), vec![hr(3, 7, HighlightTag::Keyword)]);
}

#[test]
fn pop_splits_around_several_children() {
    let mut stack = HighlightedRangeStack::new();
    stack.add(hr(0, 20, HighlightTag::Attribute));
    stack.push();
    stack.add(hr(2, 5, HighlightTag::Keyword));
    stack.add(hr(5, 8, HighlightTag::Comment));
    stack.add(hr(10, 20, HighlightTag::Operator));
    stack.pop();
    assert_eq!(
        stack.flattened(),
        vec![
            hr(0, 2, HighlightTag::Attribute),
            hr(2, 5, HighlightTag::Keyword),
            hr(5, 8, HighlightTag::Comment),
            hr(8, 10, HighlightTag::Attribute),
            hr(10, 20, HighlightTag::Operator),
        ]
    );
}

#[test]
fn pop_appends_siblings() {
    let mut stack = HighlightedRangeStack::new();
    stack.add(hr(0, 4, HighlightTag::Keyword));
    stack.push();
    stack.add(hr(5, 8, HighlightTag::Comment));
    stack.add(hr(9, 12, HighlightTag::Operator));
    stack.pop();
    assert_eq!(
        stack.flattened(),
        vec![
            hr(0, 4, HighlightTag::Keyword),
            hr(5, 8, HighlightTag::Comment),
            hr(9, 12, HighlightTag::Operator),
        ]
    );
}

#[test]
fn intersect_cuts_child_out_of_parent() {
    let mut parent = hr(0, 23, HighlightTag::Attribute);
    let child = hr(16, 21, HighlightTag::StringLiteral);
    let rest = HighlightedRangeStack::intersect(&mut parent, &child);
    assert_eq!(parent, hr(0, 16, HighlightTag::Attribute));
    assert_eq!(rest, hr(21, 23, HighlightTag::Attribute));
}

#[test]
fn intersect_partial_cuts_parent_at_child_start() {
    let mut parent = hr(0, 10, HighlightTag::Comment);
    let child = hr(6, 14, HighlightTag::Keyword);
    HighlightedRangeStack::intersect_partial(&mut parent, &child);
    assert_eq!(parent, hr(0, 6, HighlightTag::Comment));
}

#[test]
fn inject_splits_an_earlier_range() {
    // Unlike `pop`, the injection finds the range to split anywhere.
    let mut stack = HighlightedRangeStack::new();
    stack.add(hr(0, 10, HighlightTag::StringLiteral));
    stack.add(hr(12, 20, HighlightTag::Comment));
    stack.push();
    stack.add(hr(2, 4, HighlightTag::EscapeSequence));
    stack.pop_and_inject(None);
    assert_eq!(
        stack.flattened(),
        vec![
            hr(0, 2, HighlightTag::StringLiteral),
            hr(2, 4, HighlightTag::EscapeSequence),
            hr(4, 10, HighlightTag::StringLiteral),
            hr(12, 20, HighlightTag::Comment),
        ]
    );
}

#[test]
fn inject_overwrites_the_highlight_of_the_split_range() {
    let replacement = Highlight::new(HighlightTag::Dummy).with(HighlightModifier::Injected);
    let mut stack = HighlightedRangeStack::new();
    stack.add(hr(0, 10, HighlightTag::Comment));
    stack.push();
    stack.add(hr(4, 7, HighlightTag::Keyword));
    stack.pop_and_inject(Some(replacement));
    let piece = |start, end| HighlightedRange {
        range: TextRange::new(start, end),
        highlight: replacement,
        binding_hash: None,
    };
    assert_eq!(
        stack.flattened(),
        vec![piece(0, 4), hr(4, 7, HighlightTag::Keyword), piece(7, 10)]
    );
}

#[test]
fn inject_cuts_off_a_range_that_covers_only_the_start() {
    // The child reaches beyond the range that holds its start: that range
    // ends where the child starts, and what it held behind is dropped.
    let replacement = Highlight::new(HighlightTag::Dummy);
    let mut stack = HighlightedRangeStack::new();
    stack.add(hr(0, 10, HighlightTag::Comment));
    stack.push();
    stack.add(hr(6, 14, HighlightTag::Keyword));
    stack.pop_and_inject(Some(replacement));
    assert_eq!(
        stack.flattened(),
        vec![hr(0, 6, HighlightTag::Comment), hr(6, 14, HighlightTag::Keyword)]
    );
}

#[test]
fn inject_inserts_at_the_sorted_position() {
    let mut stack = HighlightedRangeStack::new();
    stack.add(hr(0, 3, HighlightTag::Keyword));
    stack.add(hr(10, 13, HighlightTag::Comment));
    stack.push();
    stack.add(hr(5, 8, HighlightTag::Operator));
    stack.pop_and_inject(None);
    assert_eq!(
        stack.flattened(),
        vec![
            hr(0, 3, HighlightTag::Keyword),
            hr(5, 8, HighlightTag::Operator),
            hr(10, 13, HighlightTag::Comment),
        ]
    );
}

#[test]
fn inject_sorts_children_first() {
    let mut stack = HighlightedRangeStack::new();
    stack.add(hr(0, 20, HighlightTag::StringLiteral));
    stack.push();
    stack.add(hr(12, 14, HighlightTag::EscapeSequence));
    stack.add(hr(3, 5, HighlightTag::EscapeSequence));
    stack.pop_and_inject(None);
    assert_eq!(
        stack.flattened(),
        vec![
            hr(0, 3, HighlightTag::StringLiteral),
            hr(3, 5, HighlightTag::EscapeSequence),
            hr(5, 12, HighlightTag::StringLiteral),
            hr(12, 14, HighlightTag::EscapeSequence),
            hr(14, 20, HighlightTag::StringLiteral),
        ]
    );
}

#[test]
fn inject_one_range() {
    let mut frame = vec![hr(0, 4, HighlightTag::Keyword), hr(4, 9, HighlightTag::Comment)];
    HighlightedRangeStack::inject(&mut frame, hr(4, 6, HighlightTag::Operator), None);
    assert_eq!(
        frame,
        vec![
            hr(0, 4, HighlightTag::Keyword),
            hr(4, 6, HighlightTag::Operator),
            hr(6, 9, HighlightTag::Comment),
        ]
    );
}

#[test]
fn flattened_sorts_by_start() {
    let mut stack = HighlightedRangeStack::new();
    stack.add(hr(12, 14, HighlightTag::Symbol(SymbolKind::Macro)));
    stack.add(hr(2, 9, HighlightTag::Comment));
    assert_eq!(
        stack.flattened(),
        vec![hr(2, 9, HighlightTag::Comment), hr(12, 14, HighlightTag::Symbol(SymbolKind::Macro))]
    );
}

#[test]
fn flattened_is_sorted_and_disjoint() {
    let mut stack = HighlightedRangeStack::new();
    stack.push();
    stack.add(hr(0, 30, HighlightTag::Attribute));
    stack.push();
    stack.add(hr(5, 10, HighlightTag::Keyword));
    stack.push();
    stack.add(hr(6, 8, HighlightTag::Operator));
    stack.pop();
    stack.pop();
    stack.push();
    stack.add(hr(20, 25, HighlightTag::Comment));
    stack.pop();
    stack.pop();
    let res = stack.flattened();
    assert_eq!(res.len(), 7);
    for pair in res.windows(2) {
        assert!(pair[0].range.start() <= pair[1].range.start());
        assert!(pair[0].range.end() <= pair[1].range.start());
    }
    for range in &res {
        assert!(!range.range.is_empty());
    }
}

#[test]
fn sort_is_stable() {
    let mut frame = vec![
        hr(5, 6, HighlightTag::Keyword),
        hr(1, 2, HighlightTag::Comment),
        hr(5, 9, HighlightTag::Operator),
        hr(1, 4, HighlightTag::Attribute),
        hr(0, 1, HighlightTag::Punctuation),
    ];
    sort_by_start(&mut frame);
    assert_eq!(
        frame,
        vec![
            hr(0, 1, HighlightTag::Punctuation),
            hr(1, 2, HighlightTag::Comment),
            hr(1, 4, HighlightTag::Attribute),
            hr(5, 6, HighlightTag::Keyword),
            hr(5, 9, HighlightTag::Operator),
        ]
    );
}

#[test]
fn position_finds_the_first_hit() {
    let frame = vec![
        hr(0, 4, HighlightTag::Keyword),
        hr(4, 9, HighlightTag::Comment),
        hr(4, 12, HighlightTag::Operator),
    ];
    assert_eq!(position(&frame, Probe::Enclosing(TextRange::new(5, 9))), 1);
    assert_eq!(position(&frame, Probe::Enclosing(TextRange::new(5, 10))), 2);
    assert_eq!(position(&frame, Probe::Enclosing(TextRange::new(5, 13))), 3);
    assert_eq!(position(&frame, Probe::Covering(3)), 0);
    assert_eq!(position(&frame, Probe::Covering(4)), 1);
    assert_eq!(position(&frame, Probe::Covering(12)), 3);
    assert_eq!(position(&frame, Probe::StartingFrom(4)), 1);
    assert_eq!(position(&frame, Probe::StartingAfter(4)), 3);
    assert_eq!(position(&frame, Probe::StartingAfter(0)), 1);
}

#[test]
fn add_all_appends_in_order() {
    let mut stack = HighlightedRangeStack::new();
    stack.add(hr(0, 1, HighlightTag::Keyword));
    stack.add_all(&vec![hr(2, 3, HighlightTag::Comment), hr(4, 5, HighlightTag::Operator)]);
    assert_eq!(
        stack.flattened(),
        vec![
            hr(0, 1, HighlightTag::Keyword),
            hr(2, 3, HighlightTag::Comment),
            hr(4, 5, HighlightTag::Operator),
        ]
    );
}

#[test]
fn can_pop_needs_two_frames() {
    let stack = HighlightedRangeStack::new();
    assert_eq!(stack.depth(), 1);
    assert!(!stack.can_pop());
    let mut stack = HighlightedRangeStack::new();
    assert!(!stack.try_pop());
    assert!(!stack.try_pop_and_inject(None));
    stack.push();
    assert_eq!(stack.depth(), 2);
    assert!(stack.can_pop());
    assert!(stack.try_pop());
    assert_eq!(stack.depth(), 1);
}

#[test]
fn can_pop_wants_children_within_the_parent() {
    let stack_of = |children: Vec<HighlightedRange>| {
        let mut stack = HighlightedRangeStack::new();
        stack.add(hr(0, 10, HighlightTag::Attribute));
        stack.push();
        stack.add_all(&children);
        stack
    };
    assert!(stack_of(vec![hr(2, 4, HighlightTag::Keyword), hr(4, 10, HighlightTag::Keyword)])
        .can_pop());
    // The second child reaches beyond the parent.
    assert!(!stack_of(vec![hr(2, 4, HighlightTag::Keyword), hr(4, 11, HighlightTag::Keyword)])
        .can_pop());
    // The second child starts before the first one ends.
    assert!(!stack_of(vec![hr(2, 4, HighlightTag::Keyword), hr(3, 5, HighlightTag::Keyword)])
        .can_pop());
    // The first child is not within the parent: the children are siblings.
    assert!(stack_of(vec![hr(8, 12, HighlightTag::Keyword), hr(3, 5, HighlightTag::Keyword)])
        .can_pop());
    let mut stack =
        stack_of(vec![hr(2, 4, HighlightTag::Keyword), hr(4, 11, HighlightTag::Keyword)]);
    assert!(!stack.try_pop());
    assert_eq!(stack.depth(), 2);
}

#[test]
fn pop_and_inject_cuts_the_range_that_a_child_reaches_beyond() {
    // Without a replacement highlight.
    let mut stack = HighlightedRangeStack::new();
    stack.add(hr(0, 10, HighlightTag::Comment));
    stack.push();
    stack.add(hr(5, 15, HighlightTag::Keyword));
    stack.pop_and_inject(None);
    assert_eq!(stack.depth(), 1);
    assert_eq!(
        stack.flattened(),
        vec![hr(0, 5, HighlightTag::Comment), hr(5, 15, HighlightTag::Keyword)]
    );

    // With one: the range that is cut keeps its own highlight.
    let mut stack = HighlightedRangeStack::new();
    stack.add(hr(0, 10, HighlightTag::Comment));
    stack.push();
    stack.add(hr(6, 14, HighlightTag::Keyword));
    assert!(stack.try_pop_and_inject(Some(Highlight::new(HighlightTag::Dummy))));
    assert_eq!(
        stack.try_flattened(),
        Some(vec![hr(0, 6, HighlightTag::Comment), hr(6, 14, HighlightTag::Keyword)])
    );

    // A child that starts where the range starts takes its place.
    let mut stack = HighlightedRangeStack::new();
    stack.add(hr(0, 10, HighlightTag::Comment));
    stack.add(hr(20, 30, HighlightTag::Comment));
    stack.push();
    stack.add(hr(0, 12, HighlightTag::Keyword));
    assert!(stack.try_pop_and_inject(None));
    assert_eq!(
        stack.try_flattened(),
        Some(vec![hr(0, 12, HighlightTag::Keyword), hr(20, 30, HighlightTag::Comment)])
    );
}

#[test]
fn try_pop_and_inject_needs_two_frames() {
    let mut stack = HighlightedRangeStack::new();
    stack.add(hr(0, 10, HighlightTag::Comment));
    assert!(!stack.try_pop_and_inject(None));
    assert_eq!(stack.depth(), 1);
    assert_eq!(stack.try_flattened(), Some(vec![hr(0, 10, HighlightTag::Comment)]));
}

#[test]
fn try_flattened_refuses_overlap_and_open_frames() {
    let mut stack = HighlightedRangeStack::new();
    stack.add(hr(0, 5, HighlightTag::Comment));
    stack.add(hr(4, 8, HighlightTag::Keyword));
    assert_eq!(stack.try_flattened(), None);
    let mut stack = HighlightedRangeStack::new();
    stack.push();
    assert_eq!(stack.try_flattened(), None);
    let mut stack = HighlightedRangeStack::new();
    stack.add(hr(5, 8, HighlightTag::Keyword));
    stack.add(hr(0, 5, HighlightTag::Comment));
    assert_eq!(
        stack.try_flattened(),
        Some(vec![hr(0, 5, HighlightTag::Comment), hr(5, 8, HighlightTag::Keyword)])
    );
}
