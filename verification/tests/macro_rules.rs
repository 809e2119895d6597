use ide_core::element::Element;
use ide_core::format::{highlight_format_specifier, FormatStringHighlighter};
use ide_core::element::{FormatPiece, FormatSpecifier};
use ide_core::macro_rules::{
    is_metavariable, update_macro_rules_state, MacroMatcherParseState, MacroRulesHighlighter,
    RuleState,
};
use ide_core::range_stack::{HighlightedRange, HighlightedRangeStack};
use ide_core::syntax_kind::SyntaxKind;
use ide_core::syntax_kind::SyntaxKind::{
    Comma, FatArrow, Ident, LBrack, LCurly, LParen, RBrack, RCurly, RParen,
};
use ide_core::tags::{Highlight, HighlightTag, SymbolKind};
use ide_core::text_range::TextRange;

fn after(kinds: &[SyntaxKind]) -> MacroMatcherParseState {
    let mut state = MacroMatcherParseState::new();
    for kind in kinds {
        update_macro_rules_state(&mut state, *kind);
    }
    state
}

#[test]
fn rule_state_cycle() {
    let mut s = RuleState::Outside;
    s.transition();
    assert_eq!(s, RuleState::Matcher);
    s.transition();
    assert_eq!(s, RuleState::Between);
    s.transition();
    assert_eq!(s, RuleState::Expander);
    s.transition();
    assert_eq!(s, RuleState::Outside);
}

#[test]
fn nothing_counts_before_the_body() {
    let s = after(&[SyntaxKind::Ident, SyntaxKind::LParen, SyntaxKind::RParen]);
    assert_eq!(s, MacroMatcherParseState::new());
    let s = after(&[SyntaxKind::LCurly]);
    assert!(s.in_invoc_body);
    assert_eq!(s.rule_state, RuleState::Outside);
    assert_eq!(s.paren_ty, None);
}

#[test]
fn matcher_and_expander() {
    let s = after(&[LCurly, LParen]);
    assert_eq!(s.rule_state, RuleState::Matcher);
    assert_eq!(s.paren_ty, Some((LParen, RParen)));
    assert_eq!(s.paren_level, 1);
    // Brackets of the same kind are counted, others are not.
    let s = after(&[LCurly, LParen, LParen, LBrack, Ident, RBrack]);
    assert_eq!(s.rule_state, RuleState::Matcher);
    assert_eq!(s.paren_level, 2);
    let s = after(&[LCurly, LParen, LParen, RParen]);
    assert_eq!(s.rule_state, RuleState::Matcher);
    assert_eq!(s.paren_level, 1);
    let s = after(&[LCurly, LParen, LParen, RParen, RParen]);
    assert_eq!(s.rule_state, RuleState::Between);
    assert_eq!(s.paren_ty, None);
    assert_eq!(s.paren_level, 0);
    let s = after(&[LCurly, LParen, RParen, FatArrow, LCurly, Comma]);
    assert_eq!(s.rule_state, RuleState::Expander);
    assert_eq!(s.paren_ty, Some((LCurly, RCurly)));
    let s = after(&[LCurly, LParen, RParen, FatArrow, LCurly, RCurly]);
    assert_eq!(s.rule_state, RuleState::Outside);
    let s = after(&[LCurly, LBrack]);
    assert_eq!(s.paren_ty, Some((LBrack, RBrack)));
    // The next rule starts with the next bracket.
    let s = after(&[LCurly, LParen, RParen, FatArrow, LCurly, RCurly, LParen]);
    assert_eq!(s.rule_state, RuleState::Matcher);
}

fn token(kind: SyntaxKind, prev: Option<SyntaxKind>) -> Element {
    let mut e = Element::token(kind, TextRange::new(3, 6), vec![SyntaxKind::TokenTree]);
    e.facts.prev_token = prev;
    e
}

#[test]
fn metavariable_follows_a_dollar() {
    let dollar = Some(SyntaxKind::Dollar);
    assert_eq!(is_metavariable(&token(SyntaxKind::Ident, dollar)), Some(TextRange::new(3, 6)));
    assert_eq!(is_metavariable(&token(SyntaxKind::TypeKw, dollar)), Some(TextRange::new(3, 6)));
    assert_eq!(is_metavariable(&token(SyntaxKind::Ident, Some(SyntaxKind::Comma))), None);
    assert_eq!(is_metavariable(&token(SyntaxKind::Ident, None)), None);
    assert_eq!(is_metavariable(&token(SyntaxKind::LParen, dollar)), None);
    let mut node = Element::node(SyntaxKind::Name, TextRange::new(3, 6), vec![]);
    node.facts.prev_token = dollar;
    assert_eq!(is_metavariable(&node), None);
}

#[test]
fn highlighter_marks_metavariables_in_rules_only() {
    let meta = token(SyntaxKind::Ident, Some(SyntaxKind::Dollar));
    let expected = Some(HighlightedRange {
        range: TextRange::new(3, 6),
        highlight: Highlight::new(HighlightTag::UnresolvedReference),
        binding_hash: None,
    });
    let mut h = MacroRulesHighlighter::new();
    assert_eq!(h.highlight(&meta), None);
    h.advance(SyntaxKind::LCurly);
    assert_eq!(h.highlight(&meta), None);
    h.init();
    assert_eq!(h.highlight(&meta), None);
    h.advance(SyntaxKind::LCurly);
    assert_eq!(h.highlight(&meta), None);
    assert!(h.can_advance(SyntaxKind::LParen));
    h.advance(SyntaxKind::LParen);
    assert_eq!(h.highlight(&meta), expected);
    assert_eq!(h.highlight(&token(SyntaxKind::Ident, None)), None);
    h.advance(SyntaxKind::RParen);
    assert_eq!(h.highlight(&meta), None);
    h.advance(SyntaxKind::LCurly);
    assert_eq!(h.highlight(&meta), expected);
    h.advance(SyntaxKind::RCurly);
    assert_eq!(h.highlight(&meta), None);
}

#[test]
fn format_specifier_tags() {
    let fs = Some(HighlightTag::FormatSpecifier);
    for kind in [
        FormatSpecifier::Open,
        FormatSpecifier::Close,
        FormatSpecifier::Colon,
        FormatSpecifier::Fill,
        FormatSpecifier::Align,
        FormatSpecifier::Sign,
        FormatSpecifier::NumberSign,
        FormatSpecifier::DollarSign,
        FormatSpecifier::Dot,
        FormatSpecifier::Asterisk,
        FormatSpecifier::QuestionMark,
    ] {
        assert_eq!(highlight_format_specifier(kind), fs);
    }
    assert_eq!(highlight_format_specifier(FormatSpecifier::Integer), Some(HighlightTag::NumericLiteral));
    assert_eq!(highlight_format_specifier(FormatSpecifier::Zero), Some(HighlightTag::NumericLiteral));
    assert_eq!(
        highlight_format_specifier(FormatSpecifier::Identifier),
        Some(HighlightTag::Symbol(SymbolKind::Local))
    );
}

fn string(macro_name: Option<&str>, template: Option<TextRange>) -> Element {
    let mut e = Element::token(SyntaxKind::String, TextRange::new(50, 60), vec![SyntaxKind::TokenTree]);
    e.facts.enclosing_macro = macro_name.map(|s| s.to_string());
    e.facts.template = template;
    e.facts.format_pieces = vec![
        FormatPiece { range: TextRange::new(1, 2), kind: FormatSpecifier::Open },
        FormatPiece { range: TextRange::new(2, 3), kind: FormatSpecifier::Integer },
        FormatPiece { range: TextRange::new(3, 4), kind: FormatSpecifier::Close },
    ];
    e
}

fn formatted(h: &FormatStringHighlighter, s: &Element) -> Vec<HighlightedRange> {
    let mut stack = HighlightedRangeStack::new();
    stack.add(HighlightedRange {
        range: TextRange::new(10, 20),
        highlight: Highlight::new(HighlightTag::StringLiteral),
        binding_hash: None,
    });
    assert!(h.try_highlight_format_string(&mut stack, s, TextRange::new(10, 20)));
    let tried = stack.flattened();
    let mut stack = HighlightedRangeStack::new();
    stack.add(HighlightedRange {
        range: TextRange::new(10, 20),
        highlight: Highlight::new(HighlightTag::StringLiteral),
        binding_hash: None,
    });
    h.highlight_format_string(&mut stack, s, TextRange::new(10, 20));
    assert_eq!(stack.flattened(), tried);
    tried
}

#[test]
fn format_string_is_the_template_of_a_format_macro() {
    let hr = |start, end, tag| HighlightedRange {
        range: TextRange::new(start, end),
        highlight: Highlight::new(tag),
        binding_hash: None,
    };
    let plain = vec![hr(10, 20, HighlightTag::StringLiteral)];
    let split = vec![
        hr(10, 11, HighlightTag::StringLiteral),
        hr(11, 12, HighlightTag::FormatSpecifier),
        hr(12, 13, HighlightTag::NumericLiteral),
        hr(13, 14, HighlightTag::FormatSpecifier),
        hr(14, 20, HighlightTag::StringLiteral),
    ];
    let template = Some(TextRange::new(50, 60));

    let mut h = FormatStringHighlighter::new();
    let s = string(Some("format_args"), template);
    assert_eq!(formatted(&h, &s), plain);
    h.check_for_format_string(&s);
    assert_eq!(formatted(&h, &s), split);

    // Another macro leaves the template as it is.
    h.check_for_format_string(&string(Some("vec"), None));
    assert_eq!(formatted(&h, &s), split);
    h.check_for_format_string(&string(None, None));
    assert_eq!(formatted(&h, &s), split);

    // A formatting macro whose first argument is no string has no template.
    h.check_for_format_string(&string(Some("format_args_nl"), None));
    assert_eq!(formatted(&h, &s), plain);

    // Another string than the template is not split.
    let mut h = FormatStringHighlighter::new();
    h.check_for_format_string(&string(Some("format_args_nl"), Some(TextRange::new(70, 80))));
    assert_eq!(formatted(&h, &s), plain);

    let mut h = FormatStringHighlighter::new();
    h.check_for_format_string(&string(Some("format"), template));
    assert_eq!(formatted(&h, &s), plain);
}
