use ide_core::bindings::calc_binding_hash;
use ide_core::element::{
    CharPiece, Definition, Element, FormatPiece, FormatSpecifier, Local, NameClass, NameRefClass,
};
use ide_core::highlight::{highlight, try_highlight, Highlighter};
use ide_core::range_stack::HighlightedRange;
use ide_core::syntax_kind::SyntaxKind;
use ide_core::tags::{Highlight, HighlightModifier, HighlightTag, SymbolKind};
use ide_core::text_range::TextRange;
use ide_core::walk::{
    macro_call_range, try_macro_call_range, Descent, DocInjection, MacroCallShape, Sibling,
    SourceElement, WalkEvent,
};

fn hr(start: u32, end: u32, highlight: Highlight) -> HighlightedRange {
    HighlightedRange { range: TextRange::new(start, end), highlight, binding_hash: None }
}

fn tag(tag: HighlightTag) -> Highlight {
    Highlight::new(tag)
}

fn sym(kind: SymbolKind) -> Highlight {
    Highlight::new(HighlightTag::Symbol(kind))
}

fn tok(kind: SyntaxKind, start: u32, end: u32, parent: SyntaxKind) -> SourceElement {
    SourceElement::new(Element::token(kind, TextRange::new(start, end), vec![parent]))
}

fn node(kind: SyntaxKind, start: u32, end: u32, parent: SyntaxKind) -> SourceElement {
    SourceElement::new(Element::node(kind, TextRange::new(start, end), vec![parent]))
}

/// The events of a token: entered and left at once.
fn leaf(events: &mut Vec<WalkEvent>, item: SourceElement) {
    events.push(WalkEvent::Enter(item.clone()));
    events.push(WalkEvent::Leave(item));
}

/// The events of a node around those of its children.
fn around(item: SourceElement, children: Vec<WalkEvent>) -> Vec<WalkEvent> {
    let mut events = vec![WalkEvent::Enter(item.clone())];
    events.extend(children);
    events.push(WalkEvent::Leave(item));
    events
}

fn local(name: &str, ty_is_copy: bool) -> Local {
    Local {
        name: Some(name.to_string()),
        declaration: TextRange::new(0, 1),
        is_param: false,
        is_self: false,
        is_mut: false,
        ty_is_mutable_reference: false,
        ty_is_callable: false,
        ty_is_copy,
    }
}

/// `let x = 1;` as a source file.
fn let_statement() -> Vec<WalkEvent> {
    let mut stmt = Vec::new();
    leaf(&mut stmt, tok(SyntaxKind::LetKw, 0, 3, SyntaxKind::LetStmt));
    leaf(&mut stmt, tok(SyntaxKind::Whitespace, 3, 4, SyntaxKind::LetStmt));
    let mut name = node(SyntaxKind::Name, 4, 5, SyntaxKind::IdentPat);
    name.element.facts.name_class =
        Some(NameClass::Definition(Definition::Local(local("x", true))));
    let mut name_events = Vec::new();
    leaf(&mut name_events, tok(SyntaxKind::Ident, 4, 5, SyntaxKind::Name));
    let pat = around(
        node(SyntaxKind::IdentPat, 4, 5, SyntaxKind::LetStmt),
        around(name, name_events),
    );
    stmt.extend(pat);
    leaf(&mut stmt, tok(SyntaxKind::Whitespace, 5, 6, SyntaxKind::LetStmt));
    leaf(&mut stmt, tok(SyntaxKind::Eq, 6, 7, SyntaxKind::LetStmt));
    leaf(&mut stmt, tok(SyntaxKind::Whitespace, 7, 8, SyntaxKind::LetStmt));
    let mut literal = Vec::new();
    leaf(&mut literal, tok(SyntaxKind::IntNumber, 8, 9, SyntaxKind::Literal));
    stmt.extend(around(node(SyntaxKind::Literal, 8, 9, SyntaxKind::LetStmt), literal));
    leaf(&mut stmt, tok(SyntaxKind::Semicolon, 9, 10, SyntaxKind::LetStmt));
    around(
        node(SyntaxKind::SourceFile, 0, 10, SyntaxKind::SourceFile),
        around(node(SyntaxKind::LetStmt, 0, 10, SyntaxKind::SourceFile), stmt),
    )
}

fn let_statement_ranges() -> Vec<HighlightedRange> {
    vec![
        hr(0, 3, tag(HighlightTag::Keyword)),
        HighlightedRange {
            range: TextRange::new(4, 5),
            highlight: sym(SymbolKind::Local).with(HighlightModifier::Definition),
            binding_hash: Some(calc_binding_hash("x", 1)),
        },
        hr(6, 7, tag(HighlightTag::Operator)),
        hr(8, 9, tag(HighlightTag::NumericLiteral)),
        hr(9, 10, tag(HighlightTag::Punctuation)),
    ]
}

#[test]
fn highlights_a_statement() {
    let events = let_statement();
    assert_eq!(highlight(&events, None, false), let_statement_ranges());
    assert_eq!(try_highlight(&events, None, false), Some(let_statement_ranges()));
}

#[test]
fn highlighting_is_deterministic() {
    let events = let_statement();
    let first = highlight(&events, None, true);
    let second = highlight(&events, None, true);
    assert_eq!(first, second);
}

#[test]
fn output_is_sorted_and_disjoint() {
    let res = highlight(&let_statement(), None, false);
    for pair in res.windows(2) {
        assert!(pair[0].range.start() <= pair[1].range.start());
        assert!(pair[0].range.end() <= pair[1].range.start());
    }
}

#[test]
fn viewport_leaves_out_what_it_does_not_meet() {
    let events = let_statement();
    // Only the elements that meet [6, 8) are looked at; a range that only
    // touches the viewport counts, and no range is cut at its border.
    let res = highlight(&events, Some(TextRange::new(6, 8)), false);
    assert_eq!(
        res,
        vec![
            hr(6, 7, tag(HighlightTag::Operator)),
            hr(8, 9, tag(HighlightTag::NumericLiteral)),
        ]
    );
    let res = highlight(&events, Some(TextRange::new(0, 2)), false);
    assert_eq!(res, vec![hr(0, 3, tag(HighlightTag::Keyword))]);
    let res = highlight(&events, Some(TextRange::new(0, 10)), false);
    assert_eq!(res, let_statement_ranges());
    let res = highlight(&events, Some(TextRange::new(20, 30)), false);
    assert_eq!(res, vec![]);
}

#[test]
fn empty_walk_highlights_nothing() {
    assert_eq!(highlight(&vec![], None, false), vec![]);
    let events = around(node(SyntaxKind::SourceFile, 0, 0, SyntaxKind::SourceFile), vec![]);
    assert_eq!(highlight(&events, None, false), vec![]);
}

/// `#[cfg(feature = "foo")]`, with the attribute at [0, 23) and the string
/// at [16, 21).
fn attribute() -> Vec<WalkEvent> {
    let mut inner = Vec::new();
    leaf(&mut inner, tok(SyntaxKind::String, 16, 21, SyntaxKind::TokenTree));
    around(
        node(SyntaxKind::SourceFile, 0, 23, SyntaxKind::SourceFile),
        around(node(SyntaxKind::Attr, 0, 23, SyntaxKind::SourceFile), inner),
    )
}

#[test]
fn attribute_is_split_around_its_string() {
    let attribute_highlight = tag(HighlightTag::Attribute).with(HighlightModifier::Attribute);
    assert_eq!(
        highlight(&attribute(), None, false),
        vec![
            hr(0, 16, attribute_highlight),
            hr(16, 21, tag(HighlightTag::StringLiteral).with(HighlightModifier::Attribute)),
            hr(21, 23, attribute_highlight),
        ]
    );
}

#[test]
fn attribute_ends_where_its_node_is_left() {
    let mut events = Vec::new();
    events.extend(around(node(SyntaxKind::Attr, 0, 4, SyntaxKind::Fn), vec![]));
    leaf(&mut events, tok(SyntaxKind::FnKw, 5, 7, SyntaxKind::Fn));
    let events = around(node(SyntaxKind::SourceFile, 0, 7, SyntaxKind::SourceFile), events);
    assert_eq!(
        highlight(&events, None, false),
        vec![
            hr(0, 4, tag(HighlightTag::Attribute).with(HighlightModifier::Attribute)),
            hr(5, 7, tag(HighlightTag::Keyword)),
        ]
    );
}

/// `foo!(bar)`, where `bar` is a local that is not `Copy`.
fn macro_call(descend: bool) -> Vec<WalkEvent> {
    let mut call = node(SyntaxKind::MacroCall, 0, 9, SyntaxKind::ExprStmt);
    call.macro_call = Some(MacroCallShape {
        name_ref: TextRange::new(0, 3),
        path_siblings: vec![
            Sibling { kind: SyntaxKind::Path, range: TextRange::new(0, 3) },
            Sibling { kind: SyntaxKind::Bang, range: TextRange::new(3, 4) },
            Sibling { kind: SyntaxKind::TokenTree, range: TextRange::new(4, 9) },
        ],
    });
    let mut path = Vec::new();
    let mut name_ref = Vec::new();
    leaf(&mut name_ref, tok(SyntaxKind::Ident, 0, 3, SyntaxKind::NameRef));
    path.extend(around(node(SyntaxKind::NameRef, 0, 3, SyntaxKind::PathSegment), name_ref));
    let mut children = around(node(SyntaxKind::Path, 0, 3, SyntaxKind::MacroCall), path);
    leaf(&mut children, tok(SyntaxKind::Bang, 3, 4, SyntaxKind::MacroCall));
    let mut args = Vec::new();
    leaf(&mut args, tok(SyntaxKind::LParen, 4, 5, SyntaxKind::TokenTree));
    let mut bar = tok(SyntaxKind::Ident, 5, 8, SyntaxKind::TokenTree);
    if descend {
        let ancestors = vec![
            SyntaxKind::NameRef,
            SyntaxKind::PathSegment,
            SyntaxKind::Path,
            SyntaxKind::PathExpr,
            SyntaxKind::ArgList,
            SyntaxKind::CallExpr,
        ];
        let token =
            Element::token(SyntaxKind::Ident, TextRange::new(100, 103), ancestors.clone());
        let mut parent =
            Element::node(SyntaxKind::NameRef, TextRange::new(100, 103), ancestors[1..].to_vec());
        parent.facts.name_ref_class =
            Some(NameRefClass::Definition(Definition::Local(local("bar", false))));
        bar.descent = Some(Descent { token, parent });
    }
    leaf(&mut args, bar);
    leaf(&mut args, tok(SyntaxKind::RParen, 8, 9, SyntaxKind::TokenTree));
    children.extend(around(node(SyntaxKind::TokenTree, 4, 9, SyntaxKind::MacroCall), args));
    around(
        node(SyntaxKind::SourceFile, 0, 9, SyntaxKind::SourceFile),
        around(call, children),
    )
}

#[test]
fn macro_argument_is_highlighted_as_its_expansion() {
    // The range is that of the source token, the highlight that of the name
    // reference in the expansion.
    assert_eq!(
        highlight(&macro_call(true), None, false),
        vec![
            hr(0, 4, sym(SymbolKind::Macro)),
            hr(4, 5, tag(HighlightTag::Punctuation)),
            HighlightedRange {
                range: TextRange::new(5, 8),
                highlight: sym(SymbolKind::Local).with(HighlightModifier::Consuming),
                binding_hash: Some(calc_binding_hash("bar", 0)),
            },
            hr(8, 9, tag(HighlightTag::Punctuation)),
        ]
    );
}

#[test]
fn macro_argument_without_expansion_is_classified_as_it_is() {
    // An identifier on its own has no highlight.
    assert_eq!(
        highlight(&macro_call(false), None, false),
        vec![
            hr(0, 4, sym(SymbolKind::Macro)),
            hr(4, 5, tag(HighlightTag::Punctuation)),
            hr(8, 9, tag(HighlightTag::Punctuation)),
        ]
    );
}

#[test]
fn macro_call_range_spans_name_and_bang() {
    let shape = |siblings: Vec<(SyntaxKind, u32, u32)>| {
        Some(MacroCallShape {
            name_ref: TextRange::new(3, 6),
            path_siblings: siblings
                .into_iter()
                .map(|(kind, s, e)| Sibling { kind, range: TextRange::new(s, e) })
                .collect(),
        })
    };
    assert_eq!(macro_call_range(&None), None);
    assert_eq!(macro_call_range(&shape(vec![])), Some(TextRange::new(3, 6)));
    assert_eq!(
        macro_call_range(&shape(vec![
            (SyntaxKind::Path, 0, 6),
            (SyntaxKind::Bang, 6, 7),
            (SyntaxKind::TokenTree, 7, 12)
        ])),
        Some(TextRange::new(3, 7))
    );
    // An identifier behind the `!` belongs to the range too.
    assert_eq!(
        macro_call_range(&shape(vec![
            (SyntaxKind::Path, 0, 6),
            (SyntaxKind::Bang, 6, 7),
            (SyntaxKind::Whitespace, 7, 8),
            (SyntaxKind::Ident, 8, 11),
            (SyntaxKind::TokenTree, 11, 14)
        ])),
        Some(TextRange::new(3, 11))
    );
    assert_eq!(
        try_macro_call_range(&shape(vec![(SyntaxKind::Bang, 6, 7)])),
        Some(Some(TextRange::new(3, 7)))
    );
    assert_eq!(try_macro_call_range(&None), Some(None));
    // A name that would end before it starts has no range.
    assert_eq!(try_macro_call_range(&shape(vec![(SyntaxKind::Bang, 0, 1)])), None);
}

/// `m!("a{}\n")` with the string at [3, 10).
fn format_call(macro_name: &str) -> Vec<WalkEvent> {
    let mut call = node(SyntaxKind::MacroCall, 0, 11, SyntaxKind::ExprStmt);
    call.macro_call = Some(MacroCallShape {
        name_ref: TextRange::new(0, 1),
        path_siblings: vec![Sibling { kind: SyntaxKind::Bang, range: TextRange::new(1, 2) }],
    });
    let mut string = tok(SyntaxKind::String, 3, 10, SyntaxKind::TokenTree);
    let mut expanded =
        Element::token(SyntaxKind::String, TextRange::new(50, 57), vec![SyntaxKind::TokenTree]);
    expanded.facts.enclosing_macro = Some(macro_name.to_string());
    expanded.facts.template = Some(TextRange::new(50, 57));
    expanded.facts.format_pieces = vec![
        FormatPiece { range: TextRange::new(2, 3), kind: FormatSpecifier::Open },
        FormatPiece { range: TextRange::new(3, 4), kind: FormatSpecifier::Close },
    ];
    expanded.facts.char_ranges = Some(vec![
        CharPiece { range: TextRange::new(1, 2), is_valid: true, starts_with_backslash: false },
        CharPiece { range: TextRange::new(2, 3), is_valid: true, starts_with_backslash: false },
        CharPiece { range: TextRange::new(3, 4), is_valid: true, starts_with_backslash: false },
        CharPiece { range: TextRange::new(4, 6), is_valid: true, starts_with_backslash: true },
    ]);
    let parent = Element::node(SyntaxKind::TokenTree, TextRange::new(49, 58), vec![]);
    string.descent = Some(Descent { token: expanded, parent });
    let mut args = Vec::new();
    leaf(&mut args, string);
    around(
        node(SyntaxKind::SourceFile, 0, 11, SyntaxKind::SourceFile),
        around(call, around(node(SyntaxKind::TokenTree, 2, 11, SyntaxKind::MacroCall), args)),
    )
}

#[test]
fn format_string_and_escapes() {
    let string = tag(HighlightTag::StringLiteral);
    assert_eq!(
        highlight(&format_call("format_args"), None, false),
        vec![
            hr(0, 2, sym(SymbolKind::Macro)),
            hr(3, 5, string),
            hr(5, 6, tag(HighlightTag::FormatSpecifier)),
            hr(6, 7, tag(HighlightTag::FormatSpecifier)),
            hr(7, 9, tag(HighlightTag::EscapeSequence)),
            hr(9, 10, string),
        ]
    );
    assert_eq!(
        highlight(&format_call("format_args_nl"), None, false),
        highlight(&format_call("format_args"), None, false)
    );
}

#[test]
fn parts_of_literals_lie_in_the_literal() {
    let res = highlight(&format_call("format_args"), None, false);
    let literal = TextRange::new(3, 10);
    let mut marks: usize = 0;
    for r in res.iter() {
        if r.highlight.tag == HighlightTag::EscapeSequence
            || r.highlight.tag == HighlightTag::FormatSpecifier
        {
            marks += 1;
            assert!(literal.contains_range(r.range));
            assert!(!r.range.is_empty());
            assert_eq!(r.binding_hash, None);
        }
    }
    assert_eq!(marks, 3);
}

#[test]
fn result_is_cut_only_where_an_element_starts_or_ends() {
    let events = let_statement();
    let mut borders: Vec<u32> = Vec::new();
    for event in events.iter() {
        if let WalkEvent::Enter(item) = event {
            borders.push(item.element.range.start());
            borders.push(item.element.range.end());
        }
    }
    let views: Vec<(u32, u32)> = vec![(1, 2), (4, 8), (6, 8), (0, 10), (5, 5), (2, 9)];
    for (start, end) in views {
        let res = try_highlight(&events, Some(TextRange::new(start, end)), false).unwrap();
        for r in res.iter() {
            assert!(borders.contains(&r.range.start()));
            assert!(borders.contains(&r.range.end()));
        }
    }
}

#[test]
fn escapes_without_format_macro() {
    let string = tag(HighlightTag::StringLiteral);
    assert_eq!(
        highlight(&format_call("concat"), None, false),
        vec![
            hr(0, 2, sym(SymbolKind::Macro)),
            hr(3, 7, string),
            hr(7, 9, tag(HighlightTag::EscapeSequence)),
            hr(9, 10, string),
        ]
    );
}

#[test]
fn invalid_escapes_are_skipped() {
    let mut string = tok(SyntaxKind::String, 10, 20, SyntaxKind::Literal);
    string.element.facts.char_ranges = Some(vec![
        CharPiece { range: TextRange::new(1, 3), is_valid: false, starts_with_backslash: true },
        CharPiece { range: TextRange::new(3, 4), is_valid: true, starts_with_backslash: false },
        CharPiece { range: TextRange::new(4, 8), is_valid: true, starts_with_backslash: true },
    ]);
    let mut events = Vec::new();
    leaf(&mut events, string);
    let events = around(node(SyntaxKind::SourceFile, 10, 20, SyntaxKind::SourceFile), events);
    assert_eq!(
        highlight(&events, None, false),
        vec![
            hr(10, 14, tag(HighlightTag::StringLiteral)),
            hr(14, 18, tag(HighlightTag::EscapeSequence)),
            hr(18, 20, tag(HighlightTag::StringLiteral)),
        ]
    );
}

#[test]
fn raw_string_with_injected_code() {
    let mut string = tok(SyntaxKind::String, 10, 20, SyntaxKind::Literal);
    string.element.facts.is_raw = true;
    string.injection = Some(vec![
        hr(10, 12, tag(HighlightTag::StringLiteral)),
        hr(12, 14, tag(HighlightTag::Keyword)),
        hr(15, 18, sym(SymbolKind::Function)),
        hr(19, 20, tag(HighlightTag::StringLiteral)),
    ]);
    let mut events = Vec::new();
    leaf(&mut events, string.clone());
    let events = around(node(SyntaxKind::SourceFile, 10, 20, SyntaxKind::SourceFile), events);
    assert_eq!(
        highlight(&events, None, false),
        vec![
            hr(10, 12, tag(HighlightTag::StringLiteral)),
            hr(12, 14, tag(HighlightTag::Keyword)),
            hr(15, 18, sym(SymbolKind::Function)),
            hr(19, 20, tag(HighlightTag::StringLiteral)),
        ]
    );
    // A string that is not raw is highlighted as a string.
    string.element.facts.is_raw = false;
    let mut events = Vec::new();
    leaf(&mut events, string);
    let events = around(node(SyntaxKind::SourceFile, 10, 20, SyntaxKind::SourceFile), events);
    assert_eq!(highlight(&events, None, false), vec![hr(10, 20, tag(HighlightTag::StringLiteral))]);
}

#[test]
fn metavariables_of_macro_rules_are_left_out() {
    // macro_rules! m { ($type) => { type } }
    let mut body = Vec::new();
    let tt = SyntaxKind::TokenTree;
    leaf(&mut body, tok(SyntaxKind::LCurly, 0, 1, tt));
    leaf(&mut body, tok(SyntaxKind::LParen, 1, 2, tt));
    leaf(&mut body, tok(SyntaxKind::Dollar, 2, 3, tt));
    let mut meta = tok(SyntaxKind::TypeKw, 3, 7, tt);
    meta.element.facts.prev_token = Some(SyntaxKind::Dollar);
    leaf(&mut body, meta);
    leaf(&mut body, tok(SyntaxKind::RParen, 7, 8, tt));
    leaf(&mut body, tok(SyntaxKind::FatArrow, 8, 10, tt));
    leaf(&mut body, tok(SyntaxKind::LCurly, 10, 11, tt));
    let mut plain = tok(SyntaxKind::TypeKw, 11, 15, tt);
    plain.element.facts.prev_token = Some(SyntaxKind::LCurly);
    leaf(&mut body, plain);
    leaf(&mut body, tok(SyntaxKind::RCurly, 15, 16, tt));
    leaf(&mut body, tok(SyntaxKind::RCurly, 16, 17, tt));
    // Behind the rule a dollar sign does not make a metavariable.
    let mut after = tok(SyntaxKind::TypeKw, 17, 21, tt);
    after.element.facts.prev_token = Some(SyntaxKind::Dollar);
    leaf(&mut body, after);
    let events = around(
        node(SyntaxKind::SourceFile, 0, 21, SyntaxKind::SourceFile),
        around(node(SyntaxKind::MacroRules, 0, 21, SyntaxKind::SourceFile), body),
    );
    let punct = tag(HighlightTag::Punctuation);
    assert_eq!(
        highlight(&events, None, false),
        vec![
            hr(0, 1, punct),
            hr(1, 2, punct),
            hr(2, 3, punct),
            hr(7, 8, punct),
            hr(8, 10, tag(HighlightTag::Operator)),
            hr(10, 11, punct),
            hr(11, 15, tag(HighlightTag::Keyword)),
            hr(15, 16, punct),
            hr(16, 17, punct),
            hr(17, 21, tag(HighlightTag::Keyword)),
        ]
    );
}

#[test]
fn doc_comment_code_is_injected() {
    // A comment at [0, 14) whose marker is [0, 4) and whose code holds a
    // keyword at [4, 7) and a name at [8, 9).
    let mut comment = tok(SyntaxKind::Comment, 0, 14, SyntaxKind::Fn);
    comment.element.facts.is_doc_comment = true;
    let mut children = Vec::new();
    leaf(&mut children, comment);
    leaf(&mut children, tok(SyntaxKind::FnKw, 15, 17, SyntaxKind::Fn));
    let mut function = node(SyntaxKind::Fn, 0, 17, SyntaxKind::SourceFile);
    let doc = tag(HighlightTag::Comment).with(HighlightModifier::Documentation);
    function.doc_injection = Some(DocInjection {
        code: vec![hr(4, 7, tag(HighlightTag::Keyword)), hr(8, 9, sym(SymbolKind::Local))],
        comments: vec![hr(0, 4, doc)],
    });
    let events = around(
        node(SyntaxKind::SourceFile, 0, 17, SyntaxKind::SourceFile),
        around(function, children),
    );
    let injected = tag(HighlightTag::Dummy).with(HighlightModifier::Injected);
    assert_eq!(
        highlight(&events, None, false),
        vec![
            hr(0, 4, doc),
            hr(4, 7, tag(HighlightTag::Keyword).with(HighlightModifier::Injected)),
            hr(7, 8, injected),
            hr(8, 9, sym(SymbolKind::Local).with(HighlightModifier::Injected)),
            hr(9, 14, injected),
            hr(15, 17, tag(HighlightTag::Keyword)),
        ]
    );
}

#[test]
fn shadowed_locals_in_a_walk() {
    let declared_at = |at: u32| {
        let mut x = local("x", true);
        x.declaration = TextRange::new(at, at + 1);
        x
    };
    let binding = |start: u32| {
        let mut name = node(SyntaxKind::Name, start, start + 1, SyntaxKind::IdentPat);
        name.element.facts.name_class =
            Some(NameClass::Definition(Definition::Local(declared_at(start))));
        name
    };
    let reference = |start: u32, to: u32| {
        let mut name_ref = node(SyntaxKind::NameRef, start, start + 1, SyntaxKind::PathSegment);
        name_ref.element.facts.name_ref_class =
            Some(NameRefClass::Definition(Definition::Local(declared_at(to))));
        name_ref
    };
    let mut body = Vec::new();
    body.extend(around(binding(0), vec![]));
    body.extend(around(reference(2, 0), vec![]));
    body.extend(around(binding(4), vec![]));
    body.extend(around(reference(6, 4), vec![]));
    // A reference to the first local, behind the binding that shadows it.
    body.extend(around(reference(8, 0), vec![]));
    let mut events = around(node(SyntaxKind::Fn, 0, 9, SyntaxKind::SourceFile), body);
    let mut second = Vec::new();
    second.extend(around(binding(10), vec![]));
    events.extend(around(node(SyntaxKind::Fn, 10, 11, SyntaxKind::SourceFile), second));
    // A reference to a local of the first function, behind the second.
    events.extend(around(reference(12, 4), vec![]));
    let events = around(node(SyntaxKind::SourceFile, 0, 13, SyntaxKind::SourceFile), events);
    let res = highlight(&events, None, false);
    let hashes: Vec<Option<u64>> = res.iter().map(|r| r.binding_hash).collect();
    let first = Some(calc_binding_hash("x", 1));
    let second = Some(calc_binding_hash("x", 2));
    assert_eq!(hashes, vec![first, first, second, second, first, first, second]);
    assert_ne!(first, second);
}

#[test]
fn unsound_walks_are_not_highlighted() {
    let file = node(SyntaxKind::SourceFile, 0, 10, SyntaxKind::SourceFile);
    // An element is left that was not entered.
    assert_eq!(try_highlight(&vec![WalkEvent::Leave(file.clone())], None, false), None);
    // An element is not left.
    assert_eq!(try_highlight(&vec![WalkEvent::Enter(file.clone())], None, false), None);
    // A macro call is left that is not the one at hand.
    let events = vec![
        WalkEvent::Enter(file.clone()),
        WalkEvent::Leave(node(SyntaxKind::MacroCall, 0, 5, SyntaxKind::SourceFile)),
    ];
    assert_eq!(try_highlight(&events, None, false), None);
    // A macro definition is left that is not the one at hand.
    let events = vec![
        WalkEvent::Enter(node(SyntaxKind::MacroRules, 0, 5, SyntaxKind::SourceFile)),
        WalkEvent::Leave(node(SyntaxKind::MacroRules, 0, 6, SyntaxKind::SourceFile)),
    ];
    assert_eq!(try_highlight(&events, None, false), None);
    // Two tokens overlap.
    let mut events = Vec::new();
    leaf(&mut events, tok(SyntaxKind::Comma, 0, 5, SyntaxKind::SourceFile));
    leaf(&mut events, tok(SyntaxKind::Comma, 3, 8, SyntaxKind::SourceFile));
    assert_eq!(try_highlight(&around(file.clone(), events), None, false), None);
    // A range is to be split by ranges of which the second reaches beyond it.
    let mut inner = Vec::new();
    leaf(&mut inner, tok(SyntaxKind::Comma, 1, 2, SyntaxKind::Attr));
    leaf(&mut inner, tok(SyntaxKind::Comma, 3, 8, SyntaxKind::Attr));
    let events = around(node(SyntaxKind::Attr, 0, 5, SyntaxKind::SourceFile), inner);
    assert_eq!(try_highlight(&around(file.clone(), events), None, false), None);
    // A range that does not go from its start to its end.
    let mut broken = tok(SyntaxKind::Comma, 0, 1, SyntaxKind::SourceFile);
    broken.element.range.start = 4;
    let mut events = Vec::new();
    leaf(&mut events, broken);
    assert_eq!(try_highlight(&around(file.clone(), events), None, false), None);
    // An escape sequence that lies across a format specifier, and so leaves
    // ranges that overlap.
    let mut string = tok(SyntaxKind::String, 0, 10, SyntaxKind::TokenTree);
    string.element.facts.enclosing_macro = Some("format_args".to_string());
    string.element.facts.template = Some(TextRange::new(0, 10));
    string.element.facts.format_pieces =
        vec![FormatPiece { range: TextRange::new(2, 4), kind: FormatSpecifier::Fill }];
    string.element.facts.char_ranges = Some(vec![CharPiece {
        range: TextRange::new(3, 6),
        is_valid: true,
        starts_with_backslash: true,
    }]);
    let mut args = Vec::new();
    leaf(&mut args, string);
    let events = around(node(SyntaxKind::MacroCall, 0, 10, SyntaxKind::SourceFile), args);
    assert_eq!(try_highlight(&around(file, events), None, false), None);
}

#[test]
fn driver_step_by_step() {
    let mut highlighter = Highlighter::new(None, false);
    let file = node(SyntaxKind::SourceFile, 0, 3, SyntaxKind::SourceFile);
    let kw = tok(SyntaxKind::FnKw, 0, 2, SyntaxKind::SourceFile);
    highlighter.enter(&file);
    highlighter.process(&WalkEvent::Enter(kw.clone()));
    assert!(highlighter.try_process(&WalkEvent::Leave(kw)));
    assert!(highlighter.try_leave(&file));
    assert_eq!(highlighter.finish(), vec![hr(0, 2, tag(HighlightTag::Keyword))]);

    let mut highlighter = Highlighter::new(None, false);
    assert!(!highlighter.try_leave(&file));
    let mut highlighter = Highlighter::new(None, false);
    assert!(highlighter.try_enter(&file));
    assert_eq!(highlighter.try_finish(), None);
}
