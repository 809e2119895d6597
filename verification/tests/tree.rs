use ide_core::bindings::calc_binding_hash;
use ide_core::element::{
    CharPiece, Definition, Element, FormatPiece, FormatSpecifier, Local, NameClass, NameRefClass,
};
use ide_core::highlight::{try_highlight, Highlighter};
use ide_core::range_stack::HighlightedRange;
use ide_core::syntax_kind::SyntaxKind;
use ide_core::tags::{Highlight, HighlightModifier, HighlightTag, SymbolKind};
use ide_core::text_range::TextRange;
use ide_core::tree_walk::{highlight_tree, try_highlight_tree, try_walk_tree, walk_tree, Tree};
use ide_core::walk::{Descent, MacroCallShape, Sibling, SourceElement, WalkEvent};

fn hr(start: u32, end: u32, highlight: Highlight) -> HighlightedRange {
    HighlightedRange { range: TextRange::new(start, end), highlight, binding_hash: None }
}

fn tag(tag: HighlightTag) -> Highlight {
    Highlight::new(tag)
}

fn sym(kind: SymbolKind) -> Highlight {
    Highlight::new(HighlightTag::Symbol(kind))
}

fn token(kind: SyntaxKind, start: u32, end: u32, parent: SyntaxKind) -> Tree {
    Tree {
        item: SourceElement::new(Element::token(kind, TextRange::new(start, end), vec![parent])),
        children: vec![],
    }
}

fn node(kind: SyntaxKind, start: u32, end: u32, parent: SyntaxKind, children: Vec<Tree>) -> Tree {
    Tree {
        item: SourceElement::new(Element::node(kind, TextRange::new(start, end), vec![parent])),
        children,
    }
}

/// The events of the walk of a tree.
fn events(tree: &Tree, out: &mut Vec<WalkEvent>) {
    out.push(WalkEvent::Enter(tree.item.clone()));
    for child in &tree.children {
        events(child, out);
    }
    out.push(WalkEvent::Leave(tree.item.clone()));
}

fn local(name: &str, ty_is_copy: bool) -> Local {
    Local {
        name: Some(name.to_string()),
        declaration: TextRange::new(0, 1),
        is_param: false,
        is_self: false,
        is_mut: false,
        ty_is_mutable_reference: false,
        ty_is_callable: false,
        ty_is_copy,
    }
}

/// `#[a("b\n")] fn f() { let s = m!("{}", s); }`, more or less.
fn sample() -> Tree {
    let mut string = token(SyntaxKind::String, 4, 10, SyntaxKind::TokenTree);
    string.item.element.facts.char_ranges = Some(vec![
        CharPiece { range: TextRange::new(1, 2), is_valid: true, starts_with_backslash: false },
        CharPiece { range: TextRange::new(2, 4), is_valid: true, starts_with_backslash: true },
    ]);
    let attr = node(
        SyntaxKind::Attr,
        0,
        12,
        SyntaxKind::Fn,
        vec![
            token(SyntaxKind::Pound, 0, 1, SyntaxKind::Attr),
            token(SyntaxKind::LBrack, 1, 2, SyntaxKind::Attr),
            node(
                SyntaxKind::TokenTree,
                3,
                11,
                SyntaxKind::Attr,
                vec![
                    token(SyntaxKind::LParen, 3, 4, SyntaxKind::TokenTree),
                    string,
                    token(SyntaxKind::RParen, 10, 11, SyntaxKind::TokenTree),
                ],
            ),
            token(SyntaxKind::RBrack, 11, 12, SyntaxKind::Attr),
        ],
    );
    let mut name = node(SyntaxKind::Name, 24, 25, SyntaxKind::IdentPat, vec![]);
    name.item.element.facts.name_class =
        Some(NameClass::Definition(Definition::Local(local("s", false))));

    let mut call = node(SyntaxKind::MacroCall, 28, 40, SyntaxKind::LetStmt, vec![]);
    call.item.macro_call = Some(MacroCallShape {
        name_ref: TextRange::new(28, 29),
        path_siblings: vec![
            Sibling { kind: SyntaxKind::Path, range: TextRange::new(28, 29) },
            Sibling { kind: SyntaxKind::Bang, range: TextRange::new(29, 30) },
            Sibling { kind: SyntaxKind::TokenTree, range: TextRange::new(30, 40) },
        ],
    });
    let mut template = token(SyntaxKind::String, 31, 35, SyntaxKind::TokenTree);
    let mut expanded =
        Element::token(SyntaxKind::String, TextRange::new(80, 84), vec![SyntaxKind::TokenTree]);
    expanded.facts.enclosing_macro = Some("format_args".to_string());
    expanded.facts.template = Some(TextRange::new(80, 84));
    expanded.facts.format_pieces = vec![
        FormatPiece { range: TextRange::new(1, 2), kind: FormatSpecifier::Open },
        FormatPiece { range: TextRange::new(2, 3), kind: FormatSpecifier::Close },
    ];
    expanded.facts.char_ranges = Some(vec![]);
    template.item.descent = Some(Descent {
        token: expanded,
        parent: Element::node(SyntaxKind::TokenTree, TextRange::new(79, 90), vec![]),
    });
    let mut arg = token(SyntaxKind::Ident, 37, 38, SyntaxKind::TokenTree);
    let ancestors = vec![
        SyntaxKind::NameRef,
        SyntaxKind::PathSegment,
        SyntaxKind::Path,
        SyntaxKind::PathExpr,
        SyntaxKind::ArgList,
    ];
    let mut arg_parent =
        Element::node(SyntaxKind::NameRef, TextRange::new(86, 87), ancestors[1..].to_vec());
    arg_parent.facts.name_ref_class =
        Some(NameRefClass::Definition(Definition::Local(local("s", false))));
    arg.item.descent = Some(Descent {
        token: Element::token(SyntaxKind::Ident, TextRange::new(86, 87), ancestors),
        parent: arg_parent,
    });
    call.children = vec![
        node(
            SyntaxKind::Path,
            28,
            29,
            SyntaxKind::MacroCall,
            vec![token(SyntaxKind::Ident, 28, 29, SyntaxKind::NameRef)],
        ),
        token(SyntaxKind::Bang, 29, 30, SyntaxKind::MacroCall),
        node(
            SyntaxKind::TokenTree,
            30,
            40,
            SyntaxKind::MacroCall,
            vec![
                token(SyntaxKind::LParen, 30, 31, SyntaxKind::TokenTree),
                template,
                token(SyntaxKind::Comma, 35, 36, SyntaxKind::TokenTree),
                arg,
                token(SyntaxKind::RParen, 39, 40, SyntaxKind::TokenTree),
            ],
        ),
    ];
    let body = node(
        SyntaxKind::BlockExpr,
        18,
        43,
        SyntaxKind::Fn,
        vec![
            token(SyntaxKind::LCurly, 18, 19, SyntaxKind::BlockExpr),
            node(
                SyntaxKind::LetStmt,
                20,
                41,
                SyntaxKind::BlockExpr,
                vec![
                    token(SyntaxKind::LetKw, 20, 23, SyntaxKind::LetStmt),
                    node(SyntaxKind::IdentPat, 24, 25, SyntaxKind::LetStmt, vec![name]),
                    token(SyntaxKind::Eq, 26, 27, SyntaxKind::LetStmt),
                    call,
                    token(SyntaxKind::Semicolon, 40, 41, SyntaxKind::LetStmt),
                ],
            ),
            token(SyntaxKind::RCurly, 42, 43, SyntaxKind::BlockExpr),
        ],
    );
    node(
        SyntaxKind::SourceFile,
        0,
        43,
        SyntaxKind::SourceFile,
        vec![node(
            SyntaxKind::Fn,
            0,
            43,
            SyntaxKind::SourceFile,
            vec![attr, token(SyntaxKind::FnKw, 13, 15, SyntaxKind::Fn), body],
        )],
    )
}

fn sample_ranges() -> Vec<HighlightedRange> {
    let in_attr = |tag: HighlightTag| Highlight::new(tag).with(HighlightModifier::Attribute);
    let hash = Some(calc_binding_hash("s", 1));
    vec![
        hr(0, 1, in_attr(HighlightTag::Attribute)),
        hr(1, 2, in_attr(HighlightTag::Attribute)),
        hr(2, 3, in_attr(HighlightTag::Attribute)),
        hr(3, 4, in_attr(HighlightTag::Punctuation)),
        hr(4, 6, in_attr(HighlightTag::StringLiteral)),
        hr(6, 8, tag(HighlightTag::EscapeSequence)),
        hr(8, 10, in_attr(HighlightTag::StringLiteral)),
        hr(10, 11, in_attr(HighlightTag::Punctuation)),
        hr(11, 12, in_attr(HighlightTag::Attribute)),
        hr(13, 15, tag(HighlightTag::Keyword)),
        hr(18, 19, tag(HighlightTag::Punctuation)),
        hr(20, 23, tag(HighlightTag::Keyword)),
        HighlightedRange {
            range: TextRange::new(24, 25),
            highlight: sym(SymbolKind::Local).with(HighlightModifier::Definition),
            binding_hash: hash,
        },
        hr(26, 27, tag(HighlightTag::Operator)),
        hr(28, 30, sym(SymbolKind::Macro)),
        hr(30, 31, tag(HighlightTag::Punctuation)),
        hr(31, 32, tag(HighlightTag::StringLiteral)),
        hr(32, 33, tag(HighlightTag::FormatSpecifier)),
        hr(33, 34, tag(HighlightTag::FormatSpecifier)),
        hr(34, 35, tag(HighlightTag::StringLiteral)),
        hr(35, 36, tag(HighlightTag::Punctuation)),
        HighlightedRange {
            range: TextRange::new(37, 38),
            highlight: sym(SymbolKind::Local).with(HighlightModifier::Consuming),
            binding_hash: hash,
        },
        hr(39, 40, tag(HighlightTag::Punctuation)),
        hr(40, 41, tag(HighlightTag::Punctuation)),
        hr(42, 43, tag(HighlightTag::Punctuation)),
    ]
}

#[test]
fn highlights_a_nested_tree() {
    let tree = sample();
    assert_eq!(highlight_tree(&tree, None, false), sample_ranges());
    assert_eq!(try_highlight_tree(&tree, None, false), Some(sample_ranges()));
}

#[test]
fn tree_and_walk_agree() {
    let tree = sample();
    let mut walk = Vec::new();
    events(&tree, &mut walk);
    assert_eq!(try_highlight(&walk, None, false), Some(sample_ranges()));
    for viewport in [TextRange::new(0, 12), TextRange::new(30, 36), TextRange::new(15, 18)] {
        assert_eq!(
            try_highlight(&walk, Some(viewport), true),
            Some(highlight_tree(&tree, Some(viewport), true))
        );
    }
}

#[test]
fn nested_tree_output_is_sorted_disjoint_and_within() {
    for viewport in [None, Some(TextRange::new(5, 33))] {
        let res = highlight_tree(&sample(), viewport, false);
        for pair in res.windows(2) {
            assert!(pair[0].range.end() <= pair[1].range.start());
        }
        for range in &res {
            assert!(range.range.start() < range.range.end());
            assert!(range.range.end() <= 43);
        }
    }
}

#[test]
fn viewport_on_a_tree() {
    let res = highlight_tree(&sample(), Some(TextRange::new(20, 23)), false);
    assert_eq!(res, vec![hr(20, 23, tag(HighlightTag::Keyword))]);
}

#[test]
fn defective_tree_is_not_highlighted() {
    // The second token starts before the first one ends.
    let tree = node(
        SyntaxKind::SourceFile,
        0,
        10,
        SyntaxKind::SourceFile,
        vec![
            token(SyntaxKind::Comma, 0, 5, SyntaxKind::SourceFile),
            token(SyntaxKind::Comma, 3, 8, SyntaxKind::SourceFile),
        ],
    );
    assert_eq!(try_highlight_tree(&tree, None, false), None);
    // A macro call inside a macro call.
    let tree = node(
        SyntaxKind::MacroCall,
        0,
        10,
        SyntaxKind::SourceFile,
        vec![node(SyntaxKind::MacroCall, 2, 8, SyntaxKind::TokenTree, vec![])],
    );
    assert_eq!(try_highlight_tree(&tree, None, false), None);
}

#[test]
fn walking_a_tree_by_hand() {
    let tree = sample();
    let mut highlighter = Highlighter::new(None, false);
    walk_tree(&mut highlighter, &tree);
    assert_eq!(highlighter.finish(), sample_ranges());
    let mut highlighter = Highlighter::new(None, false);
    assert!(try_walk_tree(&mut highlighter, &tree));
    assert_eq!(highlighter.try_finish(), Some(sample_ranges()));
}

#[test]
fn macro_definition_in_a_tree() {
    // macro_rules! m { ($ty) => { $ty , type } }
    let tt = SyntaxKind::TokenTree;
    let meta = |start: u32| {
        let mut t = token(SyntaxKind::TypeKw, start, start + 4, tt);
        t.item.element.facts.prev_token = Some(SyntaxKind::Dollar);
        t
    };
    let rules = node(
        SyntaxKind::MacroRules,
        0,
        40,
        SyntaxKind::SourceFile,
        vec![node(
            tt,
            16,
            40,
            SyntaxKind::MacroRules,
            vec![
                token(SyntaxKind::LCurly, 16, 17, tt),
                token(SyntaxKind::LParen, 18, 19, tt),
                token(SyntaxKind::Dollar, 19, 20, tt),
                meta(20),
                token(SyntaxKind::RParen, 24, 25, tt),
                token(SyntaxKind::FatArrow, 26, 28, tt),
                token(SyntaxKind::LCurly, 29, 30, tt),
                token(SyntaxKind::Dollar, 30, 31, tt),
                meta(31),
                token(SyntaxKind::Comma, 35, 36, tt),
                token(SyntaxKind::RCurly, 37, 38, tt),
                token(SyntaxKind::RCurly, 39, 40, tt),
            ],
        )],
    );
    let tree = node(
        SyntaxKind::SourceFile,
        0,
        45,
        SyntaxKind::SourceFile,
        vec![rules, token(SyntaxKind::TypeKw, 41, 45, SyntaxKind::SourceFile)],
    );
    let punct = tag(HighlightTag::Punctuation);
    let expected = vec![
        hr(16, 17, punct),
        hr(18, 19, punct),
        hr(19, 20, punct),
        hr(24, 25, punct),
        hr(26, 28, tag(HighlightTag::Operator)),
        hr(29, 30, punct),
        hr(30, 31, punct),
        hr(35, 36, punct),
        hr(37, 38, punct),
        hr(39, 40, punct),
        hr(41, 45, tag(HighlightTag::Keyword)),
    ];
    assert_eq!(highlight_tree(&tree, None, false), expected);
    assert_eq!(try_highlight_tree(&tree, None, false), Some(expected));
}

#[test]
fn documented_function_in_a_tree() {
    // Two comments with a line of code each, above a function.
    let doc = tag(HighlightTag::Comment).with(HighlightModifier::Documentation);
    let comment = |start: u32, end: u32| {
        let mut c = token(SyntaxKind::Comment, start, end, SyntaxKind::Fn);
        c.item.element.facts.is_doc_comment = true;
        c
    };
    let mut function = node(
        SyntaxKind::Fn,
        0,
        40,
        SyntaxKind::SourceFile,
        vec![
            comment(0, 14),
            token(SyntaxKind::Whitespace, 14, 15, SyntaxKind::Fn),
            comment(15, 30),
            token(SyntaxKind::Whitespace, 30, 31, SyntaxKind::Fn),
            token(SyntaxKind::FnKw, 31, 33, SyntaxKind::Fn),
        ],
    );
    function.item.doc_injection = Some(ide_core::walk::DocInjection {
        code: vec![
            hr(4, 7, tag(HighlightTag::Keyword)),
            hr(8, 9, sym(SymbolKind::Local)),
            hr(19, 25, sym(SymbolKind::Function)),
        ],
        comments: vec![hr(0, 4, doc), hr(15, 19, doc)],
    });
    let tree = node(SyntaxKind::SourceFile, 0, 40, SyntaxKind::SourceFile, vec![function]);
    let injected = tag(HighlightTag::Dummy).with(HighlightModifier::Injected);
    let expected = vec![
        hr(0, 4, doc),
        hr(4, 7, tag(HighlightTag::Keyword).with(HighlightModifier::Injected)),
        hr(7, 8, injected),
        hr(8, 9, sym(SymbolKind::Local).with(HighlightModifier::Injected)),
        hr(9, 14, injected),
        hr(15, 19, doc),
        hr(19, 25, sym(SymbolKind::Function).with(HighlightModifier::Injected)),
        hr(25, 30, injected),
        hr(31, 33, tag(HighlightTag::Keyword)),
    ];
    assert_eq!(highlight_tree(&tree, None, false), expected);
    assert_eq!(try_highlight_tree(&tree, None, false), Some(expected));
}

#[test]
fn injected_string_in_a_tree() {
    let mut string = token(SyntaxKind::String, 10, 20, SyntaxKind::Literal);
    string.item.element.facts.is_raw = true;
    string.item.injection = Some(vec![
        hr(10, 12, tag(HighlightTag::StringLiteral)),
        hr(12, 14, tag(HighlightTag::Keyword)),
        hr(19, 20, tag(HighlightTag::StringLiteral)),
    ]);
    let tree = node(
        SyntaxKind::SourceFile,
        0,
        21,
        SyntaxKind::SourceFile,
        vec![
            token(SyntaxKind::LetKw, 0, 3, SyntaxKind::SourceFile),
            node(SyntaxKind::Literal, 10, 20, SyntaxKind::SourceFile, vec![string]),
            token(SyntaxKind::Semicolon, 20, 21, SyntaxKind::SourceFile),
        ],
    );
    assert_eq!(
        highlight_tree(&tree, None, false),
        vec![
            hr(0, 3, tag(HighlightTag::Keyword)),
            hr(10, 12, tag(HighlightTag::StringLiteral)),
            hr(12, 14, tag(HighlightTag::Keyword)),
            hr(19, 20, tag(HighlightTag::StringLiteral)),
            hr(20, 21, tag(HighlightTag::Punctuation)),
        ]
    );
}
