use ide_core::tags::{Highlight, HighlightModifier, HighlightModifiers, HighlightTag};
use ide_core::text_range::TextRange;

#[test]
fn range_accessors() {
    let r = TextRange::new(3, 8);
    assert_eq!(r.start(), 3);
    assert_eq!(r.end(), 8);
    assert_eq!(r.len(), 5);
    assert!(!r.is_empty());
    assert!(TextRange::new(4, 4).is_empty());
}

#[test]
fn range_contains() {
    let r = TextRange::new(3, 8);
    assert!(r.contains(3));
    assert!(r.contains(7));
    assert!(!r.contains(8));
    assert!(!r.contains(2));
    assert!(r.contains_range(TextRange::new(3, 8)));
    assert!(r.contains_range(TextRange::new(4, 6)));
    assert!(r.contains_range(TextRange::new(8, 8)));
    assert!(!r.contains_range(TextRange::new(2, 6)));
    assert!(!r.contains_range(TextRange::new(4, 9)));
}

#[test]
fn range_intersect() {
    let r = TextRange::new(3, 8);
    assert_eq!(r.intersect(TextRange::new(5, 12)), Some(TextRange::new(5, 8)));
    assert_eq!(r.intersect(TextRange::new(0, 4)), Some(TextRange::new(3, 4)));
    // Ranges that touch have an empty common part.
    assert_eq!(r.intersect(TextRange::new(8, 12)), Some(TextRange::new(8, 8)));
    assert_eq!(r.intersect(TextRange::new(9, 12)), None);
    assert_eq!(r.intersect(TextRange::new(0, 2)), None);
}

#[test]
fn range_offset() {
    assert_eq!(TextRange::new(1, 3).offset_by(10), TextRange::new(11, 13));
}

#[test]
fn modifiers_are_a_set() {
    let mut m = HighlightModifiers::new();
    assert!(!m.contains(HighlightModifier::Mutable));
    m.insert(HighlightModifier::Mutable);
    m.insert(HighlightModifier::Unsafe);
    m.insert(HighlightModifier::Mutable);
    assert!(m.contains(HighlightModifier::Mutable));
    assert!(m.contains(HighlightModifier::Unsafe));
    assert!(!m.contains(HighlightModifier::Definition));
    let mut n = HighlightModifiers::new();
    n.insert(HighlightModifier::Unsafe);
    n.insert(HighlightModifier::Mutable);
    assert_eq!(m, n);
    let mut d = HighlightModifiers::new();
    d.insert(HighlightModifier::Definition);
    let u = m.union(d);
    assert!(u.contains(HighlightModifier::Definition));
    assert!(u.contains(HighlightModifier::Mutable));
    assert!(!u.contains(HighlightModifier::Attribute));
}

#[test]
fn modifier_bits_are_distinct() {
    let all = [
        HighlightModifier::Attribute,
        HighlightModifier::ControlFlow,
        HighlightModifier::Definition,
        HighlightModifier::Documentation,
        HighlightModifier::Injected,
        HighlightModifier::Mutable,
        HighlightModifier::Consuming,
        HighlightModifier::Unsafe,
        HighlightModifier::Callable,
        HighlightModifier::Static,
        HighlightModifier::Associated,
    ];
    for (i, a) in all.iter().enumerate() {
        assert_eq!(a.bit(), 1u32 << i);
        let h = Highlight::new(HighlightTag::Keyword).with(*a);
        for b in all.iter() {
            assert_eq!(h.modifiers.contains(*b), a == b);
        }
    }
}

#[test]
fn highlight_with_if() {
    let h = Highlight::new(HighlightTag::Operator);
    assert_eq!(h.with_if(false, HighlightModifier::Unsafe), h);
    assert_eq!(h.with_if(true, HighlightModifier::Unsafe), h.with(HighlightModifier::Unsafe));
    assert_eq!(h.with(HighlightModifier::Unsafe).tag, HighlightTag::Operator);
}
