use ide_core::bindings::{calc_binding_hash, ShadowCounts};
use ide_core::classify::{
    highlight_def, highlight_element, highlight_func_by_name_ref, highlight_method_call,
    highlight_name_by_syntax, highlight_name_ref_by_syntax, is_child_of_impl, is_consumed_lvalue,
    parents_match,
};
use ide_core::element::{
    Access, Definition, Element, Function, Local, MethodCall, NameClass, NameRefClass, Operand,
    PathResolution,
};
use ide_core::syntax_kind::SyntaxKind;
use ide_core::tags::{Highlight, HighlightModifier, HighlightTag, SymbolKind};
use ide_core::text_range::TextRange;

fn sym(kind: SymbolKind) -> Highlight {
    Highlight::new(HighlightTag::Symbol(kind))
}

fn tag(tag: HighlightTag) -> Highlight {
    Highlight::new(tag)
}

fn token(kind: SyntaxKind, ancestors: Vec<SyntaxKind>) -> Element {
    Element::token(kind, TextRange::new(0, 1), ancestors)
}

fn node(kind: SyntaxKind, ancestors: Vec<SyntaxKind>) -> Element {
    Element::node(kind, TextRange::new(0, 1), ancestors)
}

fn local(name: &str) -> Local {
    Local {
        name: Some(name.to_string()),
        declaration: TextRange::new(0, 1),
        is_param: false,
        is_self: false,
        is_mut: false,
        ty_is_mutable_reference: false,
        ty_is_callable: false,
        ty_is_copy: true,
    }
}

fn classify(element: &Element) -> Option<(Highlight, Option<u64>)> {
    let mut counts = ShadowCounts::new();
    highlight_element(&mut counts, false, element)
}

fn highlight_of(element: &Element) -> Option<Highlight> {
    classify(element).map(|(h, _)| h)
}

fn argument_ancestors() -> Vec<SyntaxKind> {
    vec![
        SyntaxKind::PathSegment,
        SyntaxKind::Path,
        SyntaxKind::PathExpr,
        SyntaxKind::ArgList,
        SyntaxKind::CallExpr,
    ]
}

#[test]
fn def_tags_go_by_kind() {
    let cases = vec![
        (Definition::Macro, SymbolKind::Macro),
        (Definition::Field { in_union: true }, SymbolKind::Field),
        (Definition::Module, SymbolKind::Module),
        (Definition::Struct, SymbolKind::Struct),
        (Definition::Enum, SymbolKind::Enum),
        (Definition::Union, SymbolKind::Union),
        (Definition::Variant, SymbolKind::Variant),
        (Definition::Trait, SymbolKind::Trait),
        (Definition::SelfType, SymbolKind::Impl),
        (Definition::TypeParam, SymbolKind::TypeParam),
        (Definition::ConstParam, SymbolKind::ConstParam),
        (Definition::LifetimeParam, SymbolKind::LifetimeParam),
        (Definition::Label, SymbolKind::Label),
        (Definition::Const { is_associated: false }, SymbolKind::Const),
        (Definition::TypeAlias { is_associated: false }, SymbolKind::TypeAlias),
        (Definition::Static { is_mut: false }, SymbolKind::Static),
    ];
    for (def, kind) in cases {
        assert_eq!(highlight_def(&def), sym(kind));
    }
    assert_eq!(highlight_def(&Definition::BuiltinType), tag(HighlightTag::BuiltinType));
}

#[test]
fn def_function_modifiers() {
    let f = |is_associated, has_self_param, is_unsafe| {
        highlight_def(&Definition::Function(Function { is_associated, has_self_param, is_unsafe }))
    };
    assert_eq!(f(false, false, false), sym(SymbolKind::Function));
    // A free function is never static, with or without a receiver.
    assert_eq!(f(false, true, false), sym(SymbolKind::Function));
    assert_eq!(
        f(true, true, false),
        sym(SymbolKind::Function).with(HighlightModifier::Associated)
    );
    assert_eq!(
        f(true, false, false),
        sym(SymbolKind::Function)
            .with(HighlightModifier::Associated)
            .with(HighlightModifier::Static)
    );
    assert_eq!(f(false, false, true), sym(SymbolKind::Function).with(HighlightModifier::Unsafe));
    assert_eq!(
        f(true, false, true),
        sym(SymbolKind::Function)
            .with(HighlightModifier::Associated)
            .with(HighlightModifier::Static)
            .with(HighlightModifier::Unsafe)
    );
}

#[test]
fn def_associated_const_alias_and_mutable_static() {
    assert_eq!(
        highlight_def(&Definition::Const { is_associated: true }),
        sym(SymbolKind::Const).with(HighlightModifier::Associated)
    );
    assert_eq!(
        highlight_def(&Definition::TypeAlias { is_associated: true }),
        sym(SymbolKind::TypeAlias).with(HighlightModifier::Associated)
    );
    assert_eq!(
        highlight_def(&Definition::Static { is_mut: true }),
        sym(SymbolKind::Static).with(HighlightModifier::Mutable).with(HighlightModifier::Unsafe)
    );
}

#[test]
fn def_local_modifiers() {
    let mut l = local("x");
    assert_eq!(highlight_def(&Definition::Local(l.clone())), sym(SymbolKind::Local));
    l.is_param = true;
    assert_eq!(highlight_def(&Definition::Local(l.clone())), sym(SymbolKind::ValueParam));
    l.is_mut = true;
    assert_eq!(
        highlight_def(&Definition::Local(l.clone())),
        sym(SymbolKind::ValueParam).with(HighlightModifier::Mutable)
    );
    l.is_mut = false;
    l.ty_is_mutable_reference = true;
    l.ty_is_callable = true;
    assert_eq!(
        highlight_def(&Definition::Local(l)),
        sym(SymbolKind::ValueParam)
            .with(HighlightModifier::Mutable)
            .with(HighlightModifier::Callable)
    );
}

#[test]
fn method_call_modifiers() {
    let call = |callee_is_unsafe, call_is_unsafe, self_access, receiver_is_copy| {
        highlight_method_call(&Some(MethodCall {
            callee_is_unsafe,
            call_is_unsafe,
            self_access,
            receiver_is_copy,
        }))
    };
    let base = sym(SymbolKind::Function).with(HighlightModifier::Associated);
    assert_eq!(highlight_method_call(&None), None);
    assert_eq!(call(false, false, None, None), Some(base));
    assert_eq!(call(false, false, Some(Access::Shared), Some(false)), Some(base));
    assert_eq!(call(true, false, None, None), Some(base.with(HighlightModifier::Unsafe)));
    assert_eq!(call(false, true, None, None), Some(base.with(HighlightModifier::Unsafe)));
    assert_eq!(
        call(false, false, Some(Access::Exclusive), Some(false)),
        Some(base.with(HighlightModifier::Mutable))
    );
    assert_eq!(
        call(false, false, Some(Access::Owned), Some(false)),
        Some(base.with(HighlightModifier::Consuming))
    );
    // An owned receiver that is `Copy`, or of unknown type, is not consumed.
    assert_eq!(call(false, false, Some(Access::Owned), Some(true)), Some(base));
    assert_eq!(call(false, false, Some(Access::Owned), None), Some(base));
}

#[test]
fn func_by_name_ref_needs_method_call_parent() {
    let mc = MethodCall {
        callee_is_unsafe: false,
        call_is_unsafe: false,
        self_access: None,
        receiver_is_copy: None,
    };
    let mut e = node(SyntaxKind::NameRef, vec![SyntaxKind::MethodCallExpr]);
    e.facts.method_call = Some(mc);
    assert_eq!(
        highlight_func_by_name_ref(&e),
        Some(sym(SymbolKind::Function).with(HighlightModifier::Associated))
    );
    let mut e = node(SyntaxKind::NameRef, vec![SyntaxKind::PathSegment]);
    e.facts.method_call = Some(mc);
    assert_eq!(highlight_func_by_name_ref(&e), None);
    let e = node(SyntaxKind::NameRef, vec![SyntaxKind::MethodCallExpr]);
    assert_eq!(highlight_func_by_name_ref(&e), None);
}

#[test]
fn parents_match_is_prefix_test() {
    let ancestors = vec![SyntaxKind::PathSegment, SyntaxKind::Path, SyntaxKind::PathExpr];
    assert!(parents_match(&ancestors, &[]));
    assert!(parents_match(&ancestors, &[SyntaxKind::PathSegment]));
    assert!(parents_match(&ancestors, &[SyntaxKind::PathSegment, SyntaxKind::Path]));
    assert!(!parents_match(&ancestors, &[SyntaxKind::Path]));
    assert!(!parents_match(&ancestors, &[SyntaxKind::PathSegment, SyntaxKind::PathExpr]));
    // More kinds than there are parents.
    assert!(!parents_match(
        &ancestors,
        &[SyntaxKind::PathSegment, SyntaxKind::Path, SyntaxKind::PathExpr, SyntaxKind::ArgList]
    ));
}

#[test]
fn consumed_lvalue() {
    let mut l = local("x");
    l.ty_is_copy = false;
    assert!(is_consumed_lvalue(&argument_ancestors(), &l));
    assert!(!is_consumed_lvalue(&vec![SyntaxKind::PathSegment, SyntaxKind::Path], &l));
    l.ty_is_copy = true;
    assert!(!is_consumed_lvalue(&argument_ancestors(), &l));
}

#[test]
fn child_of_impl() {
    assert!(is_child_of_impl(&token(SyntaxKind::ForKw, vec![SyntaxKind::Impl])));
    assert!(!is_child_of_impl(&token(SyntaxKind::ForKw, vec![SyntaxKind::ForExpr])));
    assert!(!is_child_of_impl(&token(SyntaxKind::ForKw, vec![])));
}

#[test]
fn name_by_syntax() {
    let cases = vec![
        (SyntaxKind::Struct, sym(SymbolKind::Struct)),
        (SyntaxKind::Enum, sym(SymbolKind::Enum)),
        (SyntaxKind::Variant, sym(SymbolKind::Variant)),
        (SyntaxKind::Union, sym(SymbolKind::Union)),
        (SyntaxKind::Trait, sym(SymbolKind::Trait)),
        (SyntaxKind::TypeAlias, sym(SymbolKind::TypeAlias)),
        (SyntaxKind::TypeParam, sym(SymbolKind::TypeParam)),
        (SyntaxKind::RecordField, sym(SymbolKind::Field)),
        (SyntaxKind::Module, sym(SymbolKind::Module)),
        (SyntaxKind::Fn, sym(SymbolKind::Function)),
        (SyntaxKind::Const, sym(SymbolKind::Const)),
        (SyntaxKind::Static, sym(SymbolKind::Static)),
        (SyntaxKind::IdentPat, sym(SymbolKind::Local)),
        (SyntaxKind::LetStmt, tag(HighlightTag::UnresolvedReference)),
    ];
    for (parent, expected) in cases {
        assert_eq!(highlight_name_by_syntax(&node(SyntaxKind::Name, vec![parent])), expected);
    }
    assert_eq!(
        highlight_name_by_syntax(&node(SyntaxKind::Name, vec![])),
        tag(HighlightTag::UnresolvedReference)
    );
}

#[test]
fn name_ref_by_syntax() {
    let unresolved = tag(HighlightTag::UnresolvedReference);
    let by = |ancestors: Vec<SyntaxKind>, upper: bool| {
        let mut e = node(SyntaxKind::NameRef, ancestors);
        e.facts.starts_uppercase = upper;
        highlight_name_ref_by_syntax(&e)
    };
    assert_eq!(by(vec![], false), unresolved);
    assert_eq!(by(vec![SyntaxKind::LetStmt], false), unresolved);
    assert_eq!(by(vec![SyntaxKind::MethodCallExpr], false), sym(SymbolKind::Function));
    assert_eq!(by(vec![SyntaxKind::FieldExpr], false), sym(SymbolKind::Field));
    assert_eq!(by(vec![SyntaxKind::PathSegment], false), unresolved);
    assert_eq!(by(vec![SyntaxKind::PathSegment, SyntaxKind::UseTree], false), unresolved);
    assert_eq!(
        by(vec![SyntaxKind::PathSegment, SyntaxKind::Path, SyntaxKind::PathType], true),
        sym(SymbolKind::Struct)
    );
    assert_eq!(
        by(vec![SyntaxKind::PathSegment, SyntaxKind::Path, SyntaxKind::PathType], false),
        sym(SymbolKind::Module)
    );
    assert_eq!(by(vec![SyntaxKind::PathSegment, SyntaxKind::Path], false), sym(SymbolKind::Module));
    assert_eq!(
        by(vec![SyntaxKind::PathSegment, SyntaxKind::Path, SyntaxKind::PathExpr], true),
        unresolved
    );
    let in_expr = |parent| vec![SyntaxKind::PathSegment, SyntaxKind::Path, SyntaxKind::PathExpr, parent];
    assert_eq!(by(in_expr(SyntaxKind::CallExpr), true), sym(SymbolKind::Function));
    assert_eq!(by(in_expr(SyntaxKind::CallExpr), false), sym(SymbolKind::Function));
    assert_eq!(by(in_expr(SyntaxKind::BinExpr), true), sym(SymbolKind::Struct));
    assert_eq!(by(in_expr(SyntaxKind::BinExpr), false), sym(SymbolKind::Const));
}

#[test]
fn name_ref_by_syntax_uses_resolved_facts() {
    let mut e = node(SyntaxKind::NameRef, vec![SyntaxKind::FieldExpr]);
    e.facts.field_in_union = Some(true);
    assert_eq!(
        highlight_name_ref_by_syntax(&e),
        sym(SymbolKind::Field).with(HighlightModifier::Unsafe)
    );
    e.facts.field_in_union = Some(false);
    assert_eq!(highlight_name_ref_by_syntax(&e), sym(SymbolKind::Field));
    let mut e = node(SyntaxKind::NameRef, vec![SyntaxKind::MethodCallExpr]);
    e.facts.method_call = Some(MethodCall {
        callee_is_unsafe: true,
        call_is_unsafe: false,
        self_access: Some(Access::Exclusive),
        receiver_is_copy: None,
    });
    assert_eq!(
        highlight_name_ref_by_syntax(&e),
        sym(SymbolKind::Function)
            .with(HighlightModifier::Associated)
            .with(HighlightModifier::Unsafe)
            .with(HighlightModifier::Mutable)
    );
}

#[test]
fn fixed_tokens() {
    let cases = vec![
        (SyntaxKind::String, tag(HighlightTag::StringLiteral)),
        (SyntaxKind::ByteString, tag(HighlightTag::StringLiteral)),
        (SyntaxKind::IntNumber, tag(HighlightTag::NumericLiteral)),
        (SyntaxKind::FloatNumber, tag(HighlightTag::NumericLiteral)),
        (SyntaxKind::Byte, tag(HighlightTag::ByteLiteral)),
        (SyntaxKind::Char, tag(HighlightTag::CharLiteral)),
        (SyntaxKind::Question, tag(HighlightTag::Operator).with(HighlightModifier::ControlFlow)),
        (SyntaxKind::TrueKw, tag(HighlightTag::BoolLiteral)),
        (SyntaxKind::FalseKw, tag(HighlightTag::BoolLiteral)),
        (SyntaxKind::Comment, tag(HighlightTag::Comment)),
        (SyntaxKind::Semicolon, tag(HighlightTag::Punctuation)),
        (SyntaxKind::LetKw, tag(HighlightTag::Keyword)),
        (SyntaxKind::UnsafeKw, tag(HighlightTag::Keyword).with(HighlightModifier::Unsafe)),
    ];
    for (kind, expected) in cases {
        assert_eq!(classify(&token(kind, vec![SyntaxKind::Literal])), Some((expected, None)));
    }
    assert_eq!(
        highlight_of(&node(SyntaxKind::Attr, vec![SyntaxKind::Fn])),
        Some(tag(HighlightTag::Attribute))
    );
}

#[test]
fn untagged_elements() {
    assert_eq!(classify(&node(SyntaxKind::Fn, vec![])), None);
    assert_eq!(classify(&node(SyntaxKind::BlockExpr, vec![])), None);
    assert_eq!(classify(&token(SyntaxKind::Whitespace, vec![])), None);
    assert_eq!(classify(&token(SyntaxKind::Ident, vec![SyntaxKind::TokenTree])), None);
    // A comment is a token.
    assert_eq!(classify(&node(SyntaxKind::Comment, vec![])), None);
}

#[test]
fn doc_comment() {
    let mut e = token(SyntaxKind::Comment, vec![SyntaxKind::Fn]);
    e.facts.is_doc_comment = true;
    assert_eq!(
        highlight_of(&e),
        Some(tag(HighlightTag::Comment).with(HighlightModifier::Documentation))
    );
}

#[test]
fn control_flow_keywords() {
    let cf = tag(HighlightTag::Keyword).with(HighlightModifier::ControlFlow);
    for kind in [
        SyntaxKind::BreakKw,
        SyntaxKind::ContinueKw,
        SyntaxKind::ElseKw,
        SyntaxKind::IfKw,
        SyntaxKind::LoopKw,
        SyntaxKind::MatchKw,
        SyntaxKind::ReturnKw,
        SyntaxKind::WhileKw,
        SyntaxKind::InKw,
    ] {
        assert_eq!(highlight_of(&token(kind, vec![SyntaxKind::BlockExpr])), Some(cf));
    }
    assert_eq!(highlight_of(&token(SyntaxKind::ForKw, vec![SyntaxKind::ForExpr])), Some(cf));
    assert_eq!(highlight_of(&token(SyntaxKind::ForKw, vec![])), Some(cf));
    assert_eq!(
        highlight_of(&token(SyntaxKind::ForKw, vec![SyntaxKind::Impl])),
        Some(tag(HighlightTag::Keyword))
    );
}

#[test]
fn ref_keyword() {
    let mut e = token(SyntaxKind::RefKw, vec![SyntaxKind::IdentPat]);
    assert_eq!(highlight_of(&e), Some(tag(HighlightTag::Keyword)));
    e.facts.flagged_unsafe = true;
    assert_eq!(
        highlight_of(&e),
        Some(tag(HighlightTag::Keyword).with(HighlightModifier::Unsafe))
    );
    let mut e = token(SyntaxKind::RefKw, vec![SyntaxKind::RefPat]);
    e.facts.flagged_unsafe = true;
    assert_eq!(highlight_of(&e), Some(tag(HighlightTag::Keyword)));
}

#[test]
fn self_keyword() {
    let base = sym(SymbolKind::SelfParam);
    let e = token(SyntaxKind::SelfKw, vec![SyntaxKind::SelfParam]);
    assert_eq!(highlight_of(&e), Some(base));
    let mut e = token(SyntaxKind::SelfKw, vec![SyntaxKind::SelfParam]);
    e.facts.in_mut_self_param = true;
    assert_eq!(highlight_of(&e), Some(base.with(HighlightModifier::Mutable)));

    let mut receiver = local("self");
    receiver.is_self = true;
    receiver.ty_is_mutable_reference = true;
    receiver.ty_is_copy = false;
    let mut e = token(SyntaxKind::SelfKw, vec![SyntaxKind::PathSegment, SyntaxKind::Path]);
    e.facts.path_resolution = Some(PathResolution::Local(receiver.clone()));
    assert_eq!(highlight_of(&e), Some(base.with(HighlightModifier::Mutable)));

    let mut e = token(SyntaxKind::SelfKw, argument_ancestors());
    e.facts.path_resolution = Some(PathResolution::Local(receiver.clone()));
    assert_eq!(
        highlight_of(&e),
        Some(base.with(HighlightModifier::Mutable).with(HighlightModifier::Consuming))
    );

    // The resolution counts only where `self` is a segment of a path.
    let mut e = token(SyntaxKind::SelfKw, vec![SyntaxKind::PathSegment, SyntaxKind::UseTree]);
    e.facts.path_resolution = Some(PathResolution::Local(receiver.clone()));
    assert_eq!(highlight_of(&e), Some(base));

    // A local that is not the receiver does not make `self` mutable.
    receiver.is_self = false;
    let mut e = token(SyntaxKind::SelfKw, vec![SyntaxKind::PathSegment, SyntaxKind::Path]);
    e.facts.path_resolution = Some(PathResolution::Local(receiver));
    assert_eq!(highlight_of(&e), Some(base));

    let mut e = token(SyntaxKind::SelfKw, vec![SyntaxKind::PathSegment, SyntaxKind::Path]);
    e.facts.path_resolution = Some(PathResolution::Other);
    assert_eq!(highlight_of(&e), Some(base));
}

#[test]
fn punctuation() {
    let op = tag(HighlightTag::Operator);
    let p = |kind, parent| highlight_of(&token(kind, vec![parent]));
    for kind in [
        SyntaxKind::Colon2,
        SyntaxKind::ThinArrow,
        SyntaxKind::FatArrow,
        SyntaxKind::Dot2,
        SyntaxKind::Eq,
        SyntaxKind::At,
        SyntaxKind::Dot,
    ] {
        assert_eq!(p(kind, SyntaxKind::Attr), Some(op));
    }
    assert_eq!(p(SyntaxKind::Amp, SyntaxKind::RefExpr), Some(op));
    assert_eq!(p(SyntaxKind::Bang, SyntaxKind::MacroCall), Some(sym(SymbolKind::Macro)));
    assert_eq!(p(SyntaxKind::Bang, SyntaxKind::NeverType), Some(tag(HighlightTag::BuiltinType)));
    assert_eq!(p(SyntaxKind::Bang, SyntaxKind::PrefixExpr), Some(op));
    assert_eq!(p(SyntaxKind::Star, SyntaxKind::PtrType), Some(tag(HighlightTag::Keyword)));
    assert_eq!(p(SyntaxKind::Star, SyntaxKind::BinExpr), Some(op));
    assert_eq!(p(SyntaxKind::Plus, SyntaxKind::BinExpr), Some(op));
    assert_eq!(p(SyntaxKind::Dot2eq, SyntaxKind::RangeExpr), Some(op));
    assert_eq!(p(SyntaxKind::Dot2eq, SyntaxKind::RangePat), Some(op));
    assert_eq!(p(SyntaxKind::Dot3, SyntaxKind::RestPat), Some(op));
    assert_eq!(p(SyntaxKind::Pound, SyntaxKind::Attr), Some(tag(HighlightTag::Attribute)));
    assert_eq!(p(SyntaxKind::LBrack, SyntaxKind::Attr), Some(tag(HighlightTag::Attribute)));
    assert_eq!(p(SyntaxKind::LBrack, SyntaxKind::ArrayExpr), Some(tag(HighlightTag::Punctuation)));
    assert_eq!(highlight_of(&token(SyntaxKind::Comma, vec![])), Some(tag(HighlightTag::Punctuation)));
}

#[test]
fn unsafe_reference_operator() {
    let mut e = token(SyntaxKind::Amp, vec![SyntaxKind::RefExpr]);
    e.facts.flagged_unsafe = true;
    assert_eq!(
        highlight_of(&e),
        Some(tag(HighlightTag::Operator).with(HighlightModifier::Unsafe))
    );
    let mut e = token(SyntaxKind::Amp, vec![SyntaxKind::RefType]);
    e.facts.flagged_unsafe = true;
    assert_eq!(highlight_of(&e), Some(tag(HighlightTag::Operator)));
}

#[test]
fn prefix_star() {
    let star = |operand: Option<Operand>, op_is_deref: bool| {
        let mut e = token(SyntaxKind::Star, vec![SyntaxKind::PrefixExpr]);
        e.facts.operand = operand;
        e.facts.op_is_deref = op_is_deref;
        highlight_of(&e)
    };
    let operand = |raw| Some(Operand { is_literal: false, ty_is_raw_ptr: raw });
    assert_eq!(star(None, true), None);
    assert_eq!(star(operand(None), true), None);
    assert_eq!(
        star(operand(Some(true)), true),
        Some(tag(HighlightTag::Operator).with(HighlightModifier::Unsafe))
    );
    assert_eq!(star(operand(Some(false)), true), Some(tag(HighlightTag::Operator)));
    assert_eq!(star(operand(Some(false)), false), Some(tag(HighlightTag::Punctuation)));
}

#[test]
fn prefix_minus() {
    let minus = |operand: Option<Operand>| {
        let mut e = token(SyntaxKind::Minus, vec![SyntaxKind::PrefixExpr]);
        e.facts.operand = operand;
        highlight_of(&e)
    };
    assert_eq!(minus(None), None);
    assert_eq!(
        minus(Some(Operand { is_literal: true, ty_is_raw_ptr: None })),
        Some(tag(HighlightTag::NumericLiteral))
    );
    assert_eq!(
        minus(Some(Operand { is_literal: false, ty_is_raw_ptr: None })),
        Some(tag(HighlightTag::Operator))
    );
}

#[test]
fn name_classes() {
    let name = |class: Option<NameClass>, parent| {
        let mut e = node(SyntaxKind::Name, vec![parent]);
        e.facts.name_class = class;
        highlight_of(&e)
    };
    assert_eq!(
        name(Some(NameClass::ExternCrate), SyntaxKind::ExternCrate),
        Some(sym(SymbolKind::Module))
    );
    assert_eq!(
        name(Some(NameClass::Definition(Definition::Struct)), SyntaxKind::Struct),
        Some(sym(SymbolKind::Struct).with(HighlightModifier::Definition))
    );
    assert_eq!(
        name(
            Some(NameClass::Definition(Definition::Field { in_union: true })),
            SyntaxKind::RecordField
        ),
        Some(
            sym(SymbolKind::Field)
                .with(HighlightModifier::Definition)
                .with(HighlightModifier::Unsafe)
        )
    );
    assert_eq!(
        name(
            Some(NameClass::Definition(Definition::Field { in_union: false })),
            SyntaxKind::RecordField
        ),
        Some(sym(SymbolKind::Field).with(HighlightModifier::Definition))
    );
    assert_eq!(
        name(Some(NameClass::ConstReference(Definition::Field { in_union: true })), SyntaxKind::IdentPat),
        Some(sym(SymbolKind::Field))
    );
    assert_eq!(
        name(Some(NameClass::ConstReference(Definition::Const { is_associated: false })), SyntaxKind::IdentPat),
        Some(sym(SymbolKind::Const))
    );
    assert_eq!(
        name(
            Some(NameClass::PatFieldShorthand { field_ref: Definition::Field { in_union: true } }),
            SyntaxKind::IdentPat
        ),
        Some(sym(SymbolKind::Field).with(HighlightModifier::Unsafe))
    );
    assert_eq!(
        name(
            Some(NameClass::PatFieldShorthand { field_ref: Definition::Field { in_union: false } }),
            SyntaxKind::IdentPat
        ),
        Some(sym(SymbolKind::Field))
    );
    assert_eq!(
        name(None, SyntaxKind::Enum),
        Some(sym(SymbolKind::Enum).with(HighlightModifier::Definition))
    );
    assert_eq!(
        name(None, SyntaxKind::Param),
        Some(tag(HighlightTag::UnresolvedReference).with(HighlightModifier::Definition))
    );
}

#[test]
fn name_ref_classes() {
    let name_ref = |class: Option<NameRefClass>, ancestors: Vec<SyntaxKind>| {
        let mut e = node(SyntaxKind::NameRef, ancestors);
        e.facts.name_ref_class = class;
        e
    };
    let path = vec![SyntaxKind::PathSegment, SyntaxKind::Path, SyntaxKind::PathExpr, SyntaxKind::BinExpr];
    assert_eq!(
        highlight_of(&name_ref(Some(NameRefClass::ExternCrate), path.clone())),
        Some(sym(SymbolKind::Module))
    );
    assert_eq!(
        highlight_of(&name_ref(Some(NameRefClass::FieldShorthand), vec![SyntaxKind::RecordExprField])),
        Some(sym(SymbolKind::Field))
    );
    assert_eq!(
        highlight_of(&name_ref(Some(NameRefClass::Definition(Definition::Trait)), path.clone())),
        Some(sym(SymbolKind::Trait))
    );
    assert_eq!(
        highlight_of(&name_ref(None, path.clone())),
        Some(tag(HighlightTag::UnresolvedReference))
    );
    // With the syntactic fallback an unresolved name goes by its surroundings.
    let mut counts = ShadowCounts::new();
    assert_eq!(
        highlight_element(&mut counts, true, &name_ref(None, path.clone())),
        Some((sym(SymbolKind::Const), None))
    );
    // A resolved name is not touched by the fallback.
    assert_eq!(
        highlight_element(
            &mut counts,
            true,
            &name_ref(Some(NameRefClass::Definition(Definition::Trait)), path)
        ),
        Some((sym(SymbolKind::Trait), None))
    );
}

#[test]
fn name_ref_in_attribute_is_function() {
    let mut e = node(
        SyntaxKind::NameRef,
        vec![SyntaxKind::PathSegment, SyntaxKind::Path, SyntaxKind::Attr, SyntaxKind::Fn],
    );
    e.facts.name_ref_class = Some(NameRefClass::Definition(Definition::Local(local("x"))));
    assert_eq!(classify(&e), Some((sym(SymbolKind::Function), None)));
}

#[test]
fn name_ref_union_field_is_unsafe() {
    let field = Some(NameRefClass::Definition(Definition::Field { in_union: true }));
    for parent in [SyntaxKind::FieldExpr, SyntaxKind::RecordPatField] {
        let mut e = node(SyntaxKind::NameRef, vec![parent]);
        e.facts.name_ref_class = field.clone();
        assert_eq!(
            highlight_of(&e),
            Some(sym(SymbolKind::Field).with(HighlightModifier::Unsafe))
        );
    }
    let mut e = node(SyntaxKind::NameRef, vec![SyntaxKind::RecordExprField]);
    e.facts.name_ref_class = field;
    assert_eq!(highlight_of(&e), Some(sym(SymbolKind::Field)));
    let mut e = node(SyntaxKind::NameRef, vec![SyntaxKind::FieldExpr]);
    e.facts.name_ref_class = Some(NameRefClass::Definition(Definition::Field { in_union: false }));
    assert_eq!(highlight_of(&e), Some(sym(SymbolKind::Field)));
}

#[test]
fn name_ref_method_call_wins() {
    let mut e = node(SyntaxKind::NameRef, vec![SyntaxKind::MethodCallExpr]);
    e.facts.method_call = Some(MethodCall {
        callee_is_unsafe: false,
        call_is_unsafe: false,
        self_access: Some(Access::Owned),
        receiver_is_copy: Some(false),
    });
    e.facts.name_ref_class = Some(NameRefClass::Definition(Definition::Local(local("f"))));
    assert_eq!(
        classify(&e),
        Some((
            sym(SymbolKind::Function)
                .with(HighlightModifier::Associated)
                .with(HighlightModifier::Consuming),
            None
        ))
    );
}

#[test]
fn non_copy_local_passed_by_value_is_consuming() {
    let mut bar = local("bar");
    bar.ty_is_copy = false;
    let mut e = node(SyntaxKind::NameRef, argument_ancestors());
    e.facts.name_ref_class = Some(NameRefClass::Definition(Definition::Local(bar.clone())));
    assert_eq!(
        highlight_of(&e),
        Some(sym(SymbolKind::Local).with(HighlightModifier::Consuming))
    );
    // Not as an argument: not consumed.
    let mut e = node(
        SyntaxKind::NameRef,
        vec![SyntaxKind::PathSegment, SyntaxKind::Path, SyntaxKind::PathExpr, SyntaxKind::BinExpr],
    );
    e.facts.name_ref_class = Some(NameRefClass::Definition(Definition::Local(bar.clone())));
    assert_eq!(highlight_of(&e), Some(sym(SymbolKind::Local)));
    // A `Copy` local is not consumed.
    bar.ty_is_copy = true;
    let mut e = node(SyntaxKind::NameRef, argument_ancestors());
    e.facts.name_ref_class = Some(NameRefClass::Definition(Definition::Local(bar)));
    assert_eq!(highlight_of(&e), Some(sym(SymbolKind::Local)));
}

#[test]
fn lifetimes() {
    let lt = |class: Option<NameClass>, ref_class: Option<NameRefClass>| {
        let mut e = node(SyntaxKind::Lifetime, vec![SyntaxKind::LifetimeParam]);
        e.facts.name_class = class;
        e.facts.name_ref_class = ref_class;
        highlight_of(&e)
    };
    let param = sym(SymbolKind::LifetimeParam);
    assert_eq!(
        lt(Some(NameClass::Definition(Definition::LifetimeParam)), None),
        Some(param.with(HighlightModifier::Definition))
    );
    assert_eq!(
        lt(Some(NameClass::Definition(Definition::Label)), None),
        Some(sym(SymbolKind::Label).with(HighlightModifier::Definition))
    );
    assert_eq!(
        lt(None, Some(NameRefClass::Definition(Definition::Label))),
        Some(sym(SymbolKind::Label))
    );
    assert_eq!(lt(None, None), Some(param));
    assert_eq!(lt(None, Some(NameRefClass::ExternCrate)), Some(param));
    assert_eq!(
        lt(Some(NameClass::ExternCrate), None),
        Some(param.with(HighlightModifier::Definition))
    );
}

fn local_at(name: &str, at: u32) -> Local {
    let mut l = local(name);
    l.declaration = TextRange::new(at, at + 1);
    l
}

fn binding_at(name: &str, at: u32) -> Element {
    let mut e = Element::node(
        SyntaxKind::Name,
        TextRange::new(at, at + 1),
        vec![SyntaxKind::IdentPat],
    );
    e.facts.name_class = Some(NameClass::Definition(Definition::Local(local_at(name, at))));
    e
}

fn reference_to(name: &str, at: u32) -> Element {
    let mut e = node(
        SyntaxKind::NameRef,
        vec![SyntaxKind::PathSegment, SyntaxKind::Path, SyntaxKind::PathExpr, SyntaxKind::BinExpr],
    );
    e.facts.name_ref_class = Some(NameRefClass::Definition(Definition::Local(local_at(name, at))));
    e
}

fn binding(name: &str) -> Element {
    binding_at(name, 0)
}

fn reference(name: &str) -> Element {
    reference_to(name, 0)
}

#[test]
fn shadowed_bindings_have_distinct_hashes() {
    let mut counts = ShadowCounts::new();
    let mut hash = |e: &Element| highlight_element(&mut counts, false, e).unwrap().1;
    let first = hash(&binding_at("x", 0));
    let first_ref = hash(&reference_to("x", 0));
    let other = hash(&binding_at("y", 10));
    let first_ref_again = hash(&reference_to("x", 0));
    let second = hash(&binding_at("x", 20));
    let second_ref = hash(&reference_to("x", 20));
    assert_eq!(first, Some(calc_binding_hash("x", 1)));
    assert_eq!(second, Some(calc_binding_hash("x", 2)));
    assert_eq!(other, Some(calc_binding_hash("y", 1)));
    assert_eq!(first_ref, first);
    assert_eq!(first_ref_again, first);
    assert_eq!(second_ref, second);
    assert_ne!(first, second);
    assert_ne!(first, other);
}

#[test]
fn reference_has_the_hash_of_its_own_declaration() {
    let mut counts = ShadowCounts::new();
    let outer = highlight_element(&mut counts, false, &binding_at("x", 0)).unwrap().1;
    let inner = highlight_element(&mut counts, false, &binding_at("x", 20)).unwrap().1;
    assert_ne!(outer, inner);
    // The outer local is still meant, though the inner one shadows it.
    let to_outer = highlight_element(&mut counts, false, &reference_to("x", 0)).unwrap().1;
    assert_eq!(to_outer, outer);
    assert_eq!(to_outer, Some(calc_binding_hash("x", 1)));
    let to_inner = highlight_element(&mut counts, false, &reference_to("x", 20)).unwrap().1;
    assert_eq!(to_inner, inner);
    // A reference is no binding.
    assert_eq!(counts.peek("x"), 2);
    assert_eq!(counts.hash_at(TextRange::new(0, 1)), outer);
    assert_eq!(counts.hash_at(TextRange::new(20, 21)), inner);
    assert_eq!(counts.hash_at(TextRange::new(5, 6)), None);
    // Nor does a function node in between change what a reference means.
    assert_eq!(highlight_element(&mut counts, false, &node(SyntaxKind::Fn, vec![])), None);
    assert_eq!(counts.peek("x"), 0);
    let later = highlight_element(&mut counts, false, &reference_to("x", 20)).unwrap().1;
    assert_eq!(later, inner);
}

#[test]
fn recorded_hashes() {
    let mut counts = ShadowCounts::new();
    assert_eq!(counts.hash_at(TextRange::new(1, 2)), None);
    counts.record(TextRange::new(1, 2), 7);
    counts.record(TextRange::new(1, 3), 8);
    assert_eq!(counts.hash_at(TextRange::new(1, 2)), Some(7));
    assert_eq!(counts.hash_at(TextRange::new(1, 3)), Some(8));
    counts.record(TextRange::new(1, 2), 9);
    assert_eq!(counts.hash_at(TextRange::new(1, 2)), Some(9));
    counts.clear();
    assert_eq!(counts.hash_at(TextRange::new(1, 2)), Some(9));
}

#[test]
fn function_node_resets_shadow_counts() {
    let mut counts = ShadowCounts::new();
    let a = highlight_element(&mut counts, false, &binding_at("x", 0)).unwrap().1;
    let b = highlight_element(&mut counts, false, &binding_at("x", 10)).unwrap().1;
    assert_eq!(highlight_element(&mut counts, false, &node(SyntaxKind::Fn, vec![])), None);
    let c = highlight_element(&mut counts, false, &binding_at("x", 20)).unwrap().1;
    assert_ne!(a, b);
    assert_eq!(a, c);
}

#[test]
fn reference_before_binding_has_count_zero() {
    let mut counts = ShadowCounts::new();
    let r = highlight_element(&mut counts, false, &reference("x")).unwrap().1;
    assert_eq!(r, Some(calc_binding_hash("x", 0)));
    assert_eq!(counts.peek("x"), 0);
    let b = highlight_element(&mut counts, false, &binding("x")).unwrap().1;
    assert_eq!(b, Some(calc_binding_hash("x", 1)));
    assert_eq!(counts.peek("x"), 1);
}

#[test]
fn local_without_name_has_no_hash() {
    let mut l = local("x");
    l.name = None;
    let mut e = node(SyntaxKind::Name, vec![SyntaxKind::IdentPat]);
    e.facts.name_class = Some(NameClass::Definition(Definition::Local(l)));
    assert_eq!(
        classify(&e),
        Some((sym(SymbolKind::Local).with(HighlightModifier::Definition), None))
    );
}

#[test]
fn binding_hash_is_a_function_of_name_and_count() {
    assert_eq!(calc_binding_hash("x", 1), calc_binding_hash("x", 1));
    assert_ne!(calc_binding_hash("x", 1), calc_binding_hash("x", 2));
    assert_ne!(calc_binding_hash("x", 1), calc_binding_hash("y", 1));
}

#[test]
fn shadow_counts() {
    let mut counts = ShadowCounts::new();
    assert_eq!(counts.peek("a"), 0);
    assert_eq!(counts.bump("a"), 1);
    assert_eq!(counts.bump("a"), 2);
    assert_eq!(counts.bump("b"), 1);
    assert_eq!(counts.get_or_enter("a"), 2);
    assert_eq!(counts.get_or_enter("c"), 0);
    assert_eq!(counts.peek("a"), 2);
    counts.clear();
    assert_eq!(counts.peek("a"), 0);
    assert_eq!(counts.bump("a"), 1);
}
