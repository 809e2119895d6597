//! The classifier: from one element of the tree, and what the semantic model
//! knows of it, to its highlight. It is total; an element that no rule
//! applies to has no highlight.

use crate::bindings::{binding_hash, calc_binding_hash, count_of, ShadowCounts};
use crate::element::{
    Access, Definition, Element, Local, MethodCall, NameClass, NameRefClass, PathResolution,
};
use crate::syntax_kind::SyntaxKind;
use crate::text_range::TextRange;
use crate::tags::{Highlight, HighlightModifier, HighlightTag, SymbolKind};
use vstd::prelude::*;

verus! {

/// The highlight of a symbol of kind `kind`, without modifiers.
pub open spec fn symbol(kind: SymbolKind) -> Highlight {
    Highlight::plain(HighlightTag::Symbol(kind))
}

fn symbol_highlight(kind: SymbolKind) -> (h: Highlight)
    ensures
        h == symbol(kind),
{
    Highlight::new(HighlightTag::Symbol(kind))
}

/// The highlight of a definition: its tag goes by the definition's kind.
/// A function is `Associated` as an item of an impl or trait, `Static` if it
/// then has no receiver, and `Unsafe` where it is declared so. Constants and
/// type aliases can be `Associated` too. A mutable static is `Mutable` and
/// `Unsafe`. A local is a `ValueParam` or a `Local`; it is `Mutable` where it
/// is declared `mut` or is a mutable reference, and `Callable` where its type
/// can be called.
pub open spec fn def_highlight(def: Definition) -> Highlight {
    match def {
        Definition::Macro => symbol(SymbolKind::Macro),
        Definition::Field { .. } => symbol(SymbolKind::Field),
        Definition::Module => symbol(SymbolKind::Module),
        Definition::Function(func) => symbol(SymbolKind::Function).plus_if(
            func.is_associated,
            HighlightModifier::Associated,
        ).plus_if(func.is_associated && !func.has_self_param, HighlightModifier::Static).plus_if(
            func.is_unsafe,
            HighlightModifier::Unsafe,
        ),
        Definition::Struct => symbol(SymbolKind::Struct),
        Definition::Enum => symbol(SymbolKind::Enum),
        Definition::Union => symbol(SymbolKind::Union),
        Definition::Variant => symbol(SymbolKind::Variant),
        Definition::Const { is_associated } => symbol(SymbolKind::Const).plus_if(
            is_associated,
            HighlightModifier::Associated,
        ),
        Definition::Trait => symbol(SymbolKind::Trait),
        Definition::TypeAlias { is_associated } => symbol(SymbolKind::TypeAlias).plus_if(
            is_associated,
            HighlightModifier::Associated,
        ),
        Definition::BuiltinType => Highlight::plain(HighlightTag::BuiltinType),
        Definition::Static { is_mut } => symbol(SymbolKind::Static).plus_if(
            is_mut,
            HighlightModifier::Mutable,
        ).plus_if(is_mut, HighlightModifier::Unsafe),
        Definition::SelfType => symbol(SymbolKind::Impl),
        Definition::TypeParam => symbol(SymbolKind::TypeParam),
        Definition::ConstParam => symbol(SymbolKind::ConstParam),
        Definition::Local(local) => symbol(
            if local.is_param {
                SymbolKind::ValueParam
            } else {
                SymbolKind::Local
            },
        ).plus_if(local.is_mut || local.ty_is_mutable_reference, HighlightModifier::Mutable).plus_if(
            local.ty_is_callable,
            HighlightModifier::Callable,
        ),
        Definition::LifetimeParam => symbol(SymbolKind::LifetimeParam),
        Definition::Label => symbol(SymbolKind::Label),
    }
}

pub fn highlight_def(def: &Definition) -> (h: Highlight)
    ensures
        h == def_highlight(*def),
{
    match def {
        Definition::Macro => symbol_highlight(SymbolKind::Macro),
        Definition::Field { .. } => symbol_highlight(SymbolKind::Field),
        Definition::Module => symbol_highlight(SymbolKind::Module),
        Definition::Function(func) => symbol_highlight(SymbolKind::Function).with_if(
            func.is_associated,
            HighlightModifier::Associated,
        ).with_if(func.is_associated && !func.has_self_param, HighlightModifier::Static).with_if(
            func.is_unsafe,
            HighlightModifier::Unsafe,
        ),
        Definition::Struct => symbol_highlight(SymbolKind::Struct),
        Definition::Enum => symbol_highlight(SymbolKind::Enum),
        Definition::Union => symbol_highlight(SymbolKind::Union),
        Definition::Variant => symbol_highlight(SymbolKind::Variant),
        Definition::Const { is_associated } => symbol_highlight(SymbolKind::Const).with_if(
            *is_associated,
            HighlightModifier::Associated,
        ),
        Definition::Trait => symbol_highlight(SymbolKind::Trait),
        Definition::TypeAlias { is_associated } => symbol_highlight(SymbolKind::TypeAlias).with_if(
            *is_associated,
            HighlightModifier::Associated,
        ),
        Definition::BuiltinType => Highlight::new(HighlightTag::BuiltinType),
        Definition::Static { is_mut } => symbol_highlight(SymbolKind::Static).with_if(
            *is_mut,
            HighlightModifier::Mutable,
        ).with_if(*is_mut, HighlightModifier::Unsafe),
        Definition::SelfType => symbol_highlight(SymbolKind::Impl),
        Definition::TypeParam => symbol_highlight(SymbolKind::TypeParam),
        Definition::ConstParam => symbol_highlight(SymbolKind::ConstParam),
        Definition::Local(local) => symbol_highlight(
            if local.is_param {
                SymbolKind::ValueParam
            } else {
                SymbolKind::Local
            },
        ).with_if(local.is_mut || local.ty_is_mutable_reference, HighlightModifier::Mutable).with_if(
            local.ty_is_callable,
            HighlightModifier::Callable,
        ),
        Definition::LifetimeParam => symbol_highlight(SymbolKind::LifetimeParam),
        Definition::Label => symbol_highlight(SymbolKind::Label),
    }
}

/// The highlight of the name of a method whose call is resolved: an
/// `Associated` function, `Unsafe` where the callee or the call is,
/// `Mutable` where the receiver is taken exclusively, and `Consuming` where
/// it is taken by value and is known not to be `Copy`.
pub open spec fn method_call_highlight(call: MethodCall) -> Highlight {
    symbol(SymbolKind::Function).plus(HighlightModifier::Associated).plus_if(
        call.callee_is_unsafe || call.call_is_unsafe,
        HighlightModifier::Unsafe,
    ).plus_if(call.self_access == Some(Access::Exclusive), HighlightModifier::Mutable).plus_if(
        call.self_access == Some(Access::Owned) && call.receiver_is_copy == Some(false),
        HighlightModifier::Consuming,
    )
}

/// The highlight of the name of a method by the call it stands in, where the
/// callee is resolved.
pub fn highlight_method_call(method_call: &Option<MethodCall>) -> (h: Option<Highlight>)
    ensures
        h == match *method_call {
            Some(call) => Some(method_call_highlight(call)),
            None => None,
        },
{
    match method_call {
        None => None,
        Some(call) => {
            let exclusive = match call.self_access {
                Some(Access::Exclusive) => true,
                _ => false,
            };
            let owned = match call.self_access {
                Some(Access::Owned) => true,
                _ => false,
            };
            let not_copy = match call.receiver_is_copy {
                Some(is_copy) => !is_copy,
                None => false,
            };
            Some(
                symbol_highlight(SymbolKind::Function).with(HighlightModifier::Associated).with_if(
                    call.callee_is_unsafe || call.call_is_unsafe,
                    HighlightModifier::Unsafe,
                ).with_if(exclusive, HighlightModifier::Mutable).with_if(
                    owned && not_copy,
                    HighlightModifier::Consuming,
                ),
            )
        },
    }
}

/// The highlight of a name reference that is the name of a method in a
/// resolved method call; none for any other.
pub open spec fn func_highlight(element: Element) -> Option<Highlight> {
    if element.parent_is(SyntaxKind::MethodCallExpr) {
        match element.facts.method_call {
            Some(call) => Some(method_call_highlight(call)),
            None => None,
        }
    } else {
        None
    }
}

pub fn highlight_func_by_name_ref(element: &Element) -> (h: Option<Highlight>)
    ensures
        h == func_highlight(*element),
{
    if element.has_parent(SyntaxKind::MethodCallExpr) {
        highlight_method_call(&element.facts.method_call)
    } else {
        None
    }
}

/// Whether the kinds of the nearest parents are exactly `kinds`, the parent
/// first.
pub fn parents_match(ancestors: &Vec<SyntaxKind>, kinds: &[SyntaxKind]) -> (b: bool)
    ensures
        b == kinds@.is_prefix_of(ancestors@),
{
    if kinds.len() > ancestors.len() {
        return false;
    }
    let mut i: usize = 0;
    while i < kinds.len()
        invariant
            0 <= i <= kinds@.len() <= ancestors@.len(),
            forall|j: int| 0 <= j < i ==> kinds@[j] == ancestors@[j],
        decreases kinds@.len() - i,
    {
        if ancestors[i] != kinds[i] {
            return false;
        }
        i += 1;
    }
    assert(kinds@ =~= ancestors@.take(kinds@.len() as int));
    true
}

/// The nodes around a path expression that is an argument of a call: a path
/// segment in a path in a path expression in an argument list.
pub open spec fn argument_path() -> Seq<SyntaxKind> {
    seq![SyntaxKind::PathSegment, SyntaxKind::Path, SyntaxKind::PathExpr, SyntaxKind::ArgList]
}

/// Whether a use of `local` with the nodes `ancestors` around it consumes
/// the local: it is passed as an argument, by value, and is not `Copy`.
pub open spec fn consumed(ancestors: Seq<SyntaxKind>, local: Local) -> bool {
    argument_path().is_prefix_of(ancestors) && !local.ty_is_copy
}

pub fn is_consumed_lvalue(ancestors: &Vec<SyntaxKind>, local: &Local) -> (b: bool)
    ensures
        b == consumed(ancestors@, *local),
{
    let kinds = [
        SyntaxKind::PathSegment,
        SyntaxKind::Path,
        SyntaxKind::PathExpr,
        SyntaxKind::ArgList,
    ];
    assert(kinds@ =~= argument_path());
    parents_match(ancestors, kinds.as_slice()) && !local.ty_is_copy
}

pub fn is_child_of_impl(element: &Element) -> (b: bool)
    ensures
        b == element.parent_is(SyntaxKind::Impl),
{
    element.has_parent(SyntaxKind::Impl)
}

/// The tag of a name that the semantic model does not know, by the kind of
/// the node that holds it.
pub open spec fn name_tag_by_syntax(parent: Option<SyntaxKind>) -> HighlightTag {
    match parent {
        Some(SyntaxKind::Struct) => HighlightTag::Symbol(SymbolKind::Struct),
        Some(SyntaxKind::Enum) => HighlightTag::Symbol(SymbolKind::Enum),
        Some(SyntaxKind::Variant) => HighlightTag::Symbol(SymbolKind::Variant),
        Some(SyntaxKind::Union) => HighlightTag::Symbol(SymbolKind::Union),
        Some(SyntaxKind::Trait) => HighlightTag::Symbol(SymbolKind::Trait),
        Some(SyntaxKind::TypeAlias) => HighlightTag::Symbol(SymbolKind::TypeAlias),
        Some(SyntaxKind::TypeParam) => HighlightTag::Symbol(SymbolKind::TypeParam),
        Some(SyntaxKind::RecordField) => HighlightTag::Symbol(SymbolKind::Field),
        Some(SyntaxKind::Module) => HighlightTag::Symbol(SymbolKind::Module),
        Some(SyntaxKind::Fn) => HighlightTag::Symbol(SymbolKind::Function),
        Some(SyntaxKind::Const) => HighlightTag::Symbol(SymbolKind::Const),
        Some(SyntaxKind::Static) => HighlightTag::Symbol(SymbolKind::Static),
        Some(SyntaxKind::IdentPat) => HighlightTag::Symbol(SymbolKind::Local),
        _ => HighlightTag::UnresolvedReference,
    }
}

/// The parent's kind, if there is a parent.
pub open spec fn parent_of(ancestors: Seq<SyntaxKind>) -> Option<SyntaxKind> {
    if ancestors.len() > 0 {
        Some(ancestors[0])
    } else {
        None
    }
}

pub fn highlight_name_by_syntax(name: &Element) -> (h: Highlight)
    ensures
        h == Highlight::plain(name_tag_by_syntax(parent_of(name.ancestors@))),
{
    if name.ancestors.len() == 0 {
        return Highlight::new(HighlightTag::UnresolvedReference);
    }
    let tag = match name.ancestors[0] {
        SyntaxKind::Struct => HighlightTag::Symbol(SymbolKind::Struct),
        SyntaxKind::Enum => HighlightTag::Symbol(SymbolKind::Enum),
        SyntaxKind::Variant => HighlightTag::Symbol(SymbolKind::Variant),
        SyntaxKind::Union => HighlightTag::Symbol(SymbolKind::Union),
        SyntaxKind::Trait => HighlightTag::Symbol(SymbolKind::Trait),
        SyntaxKind::TypeAlias => HighlightTag::Symbol(SymbolKind::TypeAlias),
        SyntaxKind::TypeParam => HighlightTag::Symbol(SymbolKind::TypeParam),
        SyntaxKind::RecordField => HighlightTag::Symbol(SymbolKind::Field),
        SyntaxKind::Module => HighlightTag::Symbol(SymbolKind::Module),
        SyntaxKind::Fn => HighlightTag::Symbol(SymbolKind::Function),
        SyntaxKind::Const => HighlightTag::Symbol(SymbolKind::Const),
        SyntaxKind::Static => HighlightTag::Symbol(SymbolKind::Static),
        SyntaxKind::IdentPat => HighlightTag::Symbol(SymbolKind::Local),
        _ => HighlightTag::UnresolvedReference,
    };
    Highlight::new(tag)
}

/// The highlight of a name reference that the semantic model does not
/// resolve, by the nodes around it and by its first letter.
///
/// The name of a method is a function, or what its resolved call makes of
/// it. The name in a field expression is a field, `Unsafe` where the field
/// is known to belong to a union. A path segment is a function where its
/// path is what a call expression calls; elsewhere in an expression it is a
/// struct if it starts in upper case and a constant if not; in any other
/// path it is a struct if it starts in upper case and a module if not.
pub open spec fn name_ref_highlight_by_syntax(name: Element) -> Highlight {
    let ancestors = name.ancestors@;
    if ancestors.len() == 0 {
        Highlight::plain(HighlightTag::UnresolvedReference)
    } else if ancestors[0] == SyntaxKind::MethodCallExpr {
        match name.facts.method_call {
            Some(call) => method_call_highlight(call),
            None => symbol(SymbolKind::Function),
        }
    } else if ancestors[0] == SyntaxKind::FieldExpr {
        symbol(SymbolKind::Field).plus_if(
            name.facts.field_in_union == Some(true),
            HighlightModifier::Unsafe,
        )
    } else if ancestors[0] == SyntaxKind::PathSegment {
        if !name.grandparent_is(SyntaxKind::Path) {
            Highlight::plain(HighlightTag::UnresolvedReference)
        } else if !(ancestors.len() > 2 && ancestors[2] == SyntaxKind::PathExpr) {
            if name.facts.starts_uppercase {
                symbol(SymbolKind::Struct)
            } else {
                symbol(SymbolKind::Module)
            }
        } else if ancestors.len() <= 3 {
            Highlight::plain(HighlightTag::UnresolvedReference)
        } else if ancestors[3] == SyntaxKind::CallExpr {
            symbol(SymbolKind::Function)
        } else if name.facts.starts_uppercase {
            symbol(SymbolKind::Struct)
        } else {
            symbol(SymbolKind::Const)
        }
    } else {
        Highlight::plain(HighlightTag::UnresolvedReference)
    }
}

pub fn highlight_name_ref_by_syntax(name: &Element) -> (h: Highlight)
    ensures
        h == name_ref_highlight_by_syntax(*name),
{
    let default = Highlight::new(HighlightTag::UnresolvedReference);
    if name.ancestors.len() == 0 {
        return default;
    }
    match name.ancestors[0] {
        SyntaxKind::MethodCallExpr => {
            match highlight_method_call(&name.facts.method_call) {
                Some(h) => h,
                None => symbol_highlight(SymbolKind::Function),
            }
        },
        SyntaxKind::FieldExpr => {
            let is_union = match name.facts.field_in_union {
                Some(in_union) => in_union,
                None => false,
            };
            symbol_highlight(SymbolKind::Field).with_if(is_union, HighlightModifier::Unsafe)
        },
        SyntaxKind::PathSegment => {
            if !name.has_grandparent(SyntaxKind::Path) {
                return default;
            }
            if !(name.ancestors.len() > 2 && name.ancestors[2] == SyntaxKind::PathExpr) {
                // Within a path, an upper-case name is taken for a type and
                // any other for a module.
                return if name.facts.starts_uppercase {
                    symbol_highlight(SymbolKind::Struct)
                } else {
                    symbol_highlight(SymbolKind::Module)
                };
            }
            if name.ancestors.len() <= 3 {
                return default;
            }
            match name.ancestors[3] {
                SyntaxKind::CallExpr => symbol_highlight(SymbolKind::Function),
                _ => if name.facts.starts_uppercase {
                    symbol_highlight(SymbolKind::Struct)
                } else {
                    symbol_highlight(SymbolKind::Const)
                },
            }
        },
        _ => default,
    }
}

/// Whether `def` is a field of a union.
pub open spec fn is_union_field(def: Definition) -> bool {
    match def {
        Definition::Field { in_union } => in_union,
        _ => false,
    }
}

fn union_field(def: &Definition) -> (b: bool)
    ensures
        b == is_union_field(*def),
{
    match def {
        Definition::Field { in_union } => *in_union,
        _ => false,
    }
}

/// The highlight of a name at the place where it is bound.
///
/// A name that defines something is highlighted as what it defines, with
/// `Definition`, and with `Unsafe` where it defines a field of a union. A
/// name that the semantic model does not know is highlighted by the node
/// that holds it, with `Definition`. A name that refers to a constant is
/// highlighted as the constant. The shorthand for a field in a pattern is a
/// field, `Unsafe` where the field belongs to a union.
pub open spec fn name_highlight(name: Element) -> Highlight {
    match name.facts.name_class {
        Some(NameClass::ExternCrate) => symbol(SymbolKind::Module),
        Some(NameClass::Definition(def)) => def_highlight(def).plus(
            HighlightModifier::Definition,
        ).plus_if(is_union_field(def), HighlightModifier::Unsafe),
        Some(NameClass::ConstReference(def)) => def_highlight(def),
        Some(NameClass::PatFieldShorthand { field_ref }) => symbol(SymbolKind::Field).plus_if(
            is_union_field(field_ref),
            HighlightModifier::Unsafe,
        ),
        None => Highlight::plain(name_tag_by_syntax(parent_of(name.ancestors@))).plus(
            HighlightModifier::Definition,
        ),
    }
}

fn highlight_name(name: &Element) -> (h: Highlight)
    ensures
        h == name_highlight(*name),
{
    match &name.facts.name_class {
        Some(NameClass::ExternCrate) => symbol_highlight(SymbolKind::Module),
        Some(NameClass::Definition(def)) => highlight_def(def).with(
            HighlightModifier::Definition,
        ).with_if(union_field(def), HighlightModifier::Unsafe),
        Some(NameClass::ConstReference(def)) => highlight_def(def),
        Some(NameClass::PatFieldShorthand { field_ref }) => symbol_highlight(
            SymbolKind::Field,
        ).with_if(union_field(field_ref), HighlightModifier::Unsafe),
        None => highlight_name_by_syntax(name).with(HighlightModifier::Definition),
    }
}

/// Whether using `def` with the nodes `ancestors` around the use consumes a
/// local.
pub open spec fn consumes(ancestors: Seq<SyntaxKind>, def: Definition) -> bool {
    match def {
        Definition::Local(local) => consumed(ancestors, local),
        _ => false,
    }
}

/// The highlight of a name at a place where it is used.
///
/// Inside an attribute every name is a function. The name of a method whose
/// call is resolved goes by the call. A name that refers to a definition is
/// highlighted as the definition, without `Definition`; it is `Consuming`
/// where it passes a local that is not `Copy` by value, and `Unsafe` where
/// it reads a field of a union in a field expression or a record pattern. A
/// name that the semantic model does not resolve is an unresolved
/// reference, unless `syntactic` asks to go by the syntax.
pub open spec fn name_ref_highlight(name: Element, syntactic: bool) -> Highlight {
    if name.within(SyntaxKind::Attr) {
        symbol(SymbolKind::Function)
    } else {
        match func_highlight(name) {
            Some(h) => h,
            None => match name.facts.name_ref_class {
                Some(NameRefClass::ExternCrate) => symbol(SymbolKind::Module),
                Some(NameRefClass::Definition(def)) => def_highlight(def).plus_if(
                    consumes(name.ancestors@, def),
                    HighlightModifier::Consuming,
                ).plus_if(
                    (name.parent_is(SyntaxKind::FieldExpr) || name.parent_is(
                        SyntaxKind::RecordPatField,
                    )) && is_union_field(def),
                    HighlightModifier::Unsafe,
                ),
                Some(NameRefClass::FieldShorthand) => symbol(SymbolKind::Field),
                None => if syntactic {
                    name_ref_highlight_by_syntax(name)
                } else {
                    Highlight::plain(HighlightTag::UnresolvedReference)
                },
            },
        }
    }
}

fn highlight_name_ref(name: &Element, syntactic: bool) -> (h: Highlight)
    ensures
        h == name_ref_highlight(*name, syntactic),
{
    if name.is_within(SyntaxKind::Attr) {
        // Without this, names in attributes would come out as unresolved.
        return symbol_highlight(SymbolKind::Function);
    }
    if let Some(h) = highlight_func_by_name_ref(name) {
        return h;
    }
    match &name.facts.name_ref_class {
        Some(NameRefClass::ExternCrate) => symbol_highlight(SymbolKind::Module),
        Some(NameRefClass::Definition(def)) => {
            let consuming = match def {
                Definition::Local(local) => is_consumed_lvalue(&name.ancestors, local),
                _ => false,
            };
            let in_field_position = name.has_parent(SyntaxKind::FieldExpr) || name.has_parent(
                SyntaxKind::RecordPatField,
            );
            highlight_def(def).with_if(consuming, HighlightModifier::Consuming).with_if(
                in_field_position && union_field(def),
                HighlightModifier::Unsafe,
            )
        },
        Some(NameRefClass::FieldShorthand) => symbol_highlight(SymbolKind::Field),
        None => if syntactic {
            highlight_name_ref_by_syntax(name)
        } else {
            Highlight::new(HighlightTag::UnresolvedReference)
        },
    }
}

/// The highlight of a lifetime: as what it defines or refers to, and a
/// lifetime parameter where the semantic model does not say.
pub open spec fn lifetime_highlight(lifetime: Element) -> Highlight {
    match lifetime.facts.name_class {
        Some(NameClass::Definition(def)) => def_highlight(def).plus(HighlightModifier::Definition),
        None => match lifetime.facts.name_ref_class {
            Some(NameRefClass::Definition(def)) => def_highlight(def),
            _ => symbol(SymbolKind::LifetimeParam),
        },
        _ => symbol(SymbolKind::LifetimeParam).plus(HighlightModifier::Definition),
    }
}

fn highlight_lifetime(lifetime: &Element) -> (h: Highlight)
    ensures
        h == lifetime_highlight(*lifetime),
{
    match &lifetime.facts.name_class {
        Some(NameClass::Definition(def)) => highlight_def(def).with(HighlightModifier::Definition),
        None => match &lifetime.facts.name_ref_class {
            Some(NameRefClass::Definition(def)) => highlight_def(def),
            _ => symbol_highlight(SymbolKind::LifetimeParam),
        },
        _ => symbol_highlight(SymbolKind::LifetimeParam).with(HighlightModifier::Definition),
    }
}

/// Whether the element's parent is an expression or pattern whose
/// punctuation is an operator.
pub open spec fn in_operator_position(element: Element) -> bool {
    ||| element.parent_is(SyntaxKind::PrefixExpr)
    ||| element.parent_is(SyntaxKind::BinExpr)
    ||| element.parent_is(SyntaxKind::RangeExpr)
    ||| element.parent_is(SyntaxKind::RangePat)
    ||| element.parent_is(SyntaxKind::RestPat)
}

/// The highlight of a punctuation token.
///
/// `&` is an operator, `Unsafe` where it forms a reference expression that
/// is flagged so. The separators and arrows of paths, functions, match arms,
/// ranges, assignments, bindings and field accesses are operators. `!` is
/// part of a macro call or the never type. `*` is a keyword in a pointer
/// type; before an operand it is an `Unsafe` operator on a raw pointer, an
/// operator where it dereferences, and punctuation otherwise. `-` before a
/// literal belongs to the number. Other punctuation is an operator in an
/// expression or pattern built with operators, part of the attribute in an
/// attribute, and plain punctuation elsewhere. Where a prefix expression
/// lacks its operand, or the operand of `*` its type, there is no highlight.
pub open spec fn punct_highlight(element: Element) -> Option<Highlight> {
    let operator = Highlight::plain(HighlightTag::Operator);
    let kind = element.kind;
    if kind == SyntaxKind::Amp {
        Some(
            operator.plus_if(
                element.parent_is(SyntaxKind::RefExpr) && element.facts.flagged_unsafe,
                HighlightModifier::Unsafe,
            ),
        )
    } else if kind == SyntaxKind::Colon2 || kind == SyntaxKind::ThinArrow || kind
        == SyntaxKind::FatArrow || kind == SyntaxKind::Dot2 || kind == SyntaxKind::Eq || kind
        == SyntaxKind::At || kind == SyntaxKind::Dot {
        Some(operator)
    } else if kind == SyntaxKind::Bang && element.parent_is(SyntaxKind::MacroCall) {
        Some(symbol(SymbolKind::Macro))
    } else if kind == SyntaxKind::Bang && element.parent_is(SyntaxKind::NeverType) {
        Some(Highlight::plain(HighlightTag::BuiltinType))
    } else if kind == SyntaxKind::Star && element.parent_is(SyntaxKind::PtrType) {
        Some(Highlight::plain(HighlightTag::Keyword))
    } else if kind == SyntaxKind::Star && element.parent_is(SyntaxKind::PrefixExpr) {
        match element.facts.operand {
            None => None,
            Some(operand) => match operand.ty_is_raw_ptr {
                None => None,
                Some(is_raw_ptr) => Some(
                    if is_raw_ptr {
                        operator.plus(HighlightModifier::Unsafe)
                    } else if element.facts.op_is_deref {
                        operator
                    } else {
                        Highlight::plain(HighlightTag::Punctuation)
                    },
                ),
            },
        }
    } else if kind == SyntaxKind::Minus && element.parent_is(SyntaxKind::PrefixExpr) {
        match element.facts.operand {
            None => None,
            Some(operand) => Some(
                Highlight::plain(
                    if operand.is_literal {
                        HighlightTag::NumericLiteral
                    } else {
                        HighlightTag::Operator
                    },
                ),
            ),
        }
    } else if in_operator_position(element) {
        Some(operator)
    } else if element.parent_is(SyntaxKind::Attr) {
        Some(Highlight::plain(HighlightTag::Attribute))
    } else {
        Some(Highlight::plain(HighlightTag::Punctuation))
    }
}

fn highlight_punct(element: &Element) -> (h: Option<Highlight>)
    ensures
        h == punct_highlight(*element),
{
    let operator = Highlight::new(HighlightTag::Operator);
    let in_prefix_expr = element.has_parent(SyntaxKind::PrefixExpr);
    match element.kind {
        SyntaxKind::Amp => Some(
            operator.with_if(
                element.has_parent(SyntaxKind::RefExpr) && element.facts.flagged_unsafe,
                HighlightModifier::Unsafe,
            ),
        ),
        SyntaxKind::Colon2
        | SyntaxKind::ThinArrow
        | SyntaxKind::FatArrow
        | SyntaxKind::Dot2
        | SyntaxKind::Eq
        | SyntaxKind::At
        | SyntaxKind::Dot => Some(operator),
        kind => {
            if kind == SyntaxKind::Bang && element.has_parent(SyntaxKind::MacroCall) {
                return Some(symbol_highlight(SymbolKind::Macro));
            }
            if kind == SyntaxKind::Bang && element.has_parent(SyntaxKind::NeverType) {
                return Some(Highlight::new(HighlightTag::BuiltinType));
            }
            if kind == SyntaxKind::Star && element.has_parent(SyntaxKind::PtrType) {
                return Some(Highlight::new(HighlightTag::Keyword));
            }
            if kind == SyntaxKind::Star && in_prefix_expr {
                let operand = match element.facts.operand {
                    Some(operand) => operand,
                    None => return None,
                };
                let is_raw_ptr = match operand.ty_is_raw_ptr {
                    Some(is_raw_ptr) => is_raw_ptr,
                    None => return None,
                };
                return Some(
                    if is_raw_ptr {
                        operator.with(HighlightModifier::Unsafe)
                    } else if element.facts.op_is_deref {
                        operator
                    } else {
                        Highlight::new(HighlightTag::Punctuation)
                    },
                );
            }
            if kind == SyntaxKind::Minus && in_prefix_expr {
                let operand = match element.facts.operand {
                    Some(operand) => operand,
                    None => return None,
                };
                return Some(
                    Highlight::new(
                        if operand.is_literal {
                            HighlightTag::NumericLiteral
                        } else {
                            HighlightTag::Operator
                        },
                    ),
                );
            }
            if in_prefix_expr || element.has_parent(SyntaxKind::BinExpr) || element.has_parent(
                SyntaxKind::RangeExpr,
            ) || element.has_parent(SyntaxKind::RangePat) || element.has_parent(
                SyntaxKind::RestPat,
            ) {
                return Some(operator);
            }
            if element.has_parent(SyntaxKind::Attr) {
                return Some(Highlight::new(HighlightTag::Attribute));
            }
            Some(Highlight::new(HighlightTag::Punctuation))
        },
    }
}

/// The local that `self` stands for, where `self` is the segment of a path
/// that resolves to a local.
pub open spec fn self_local(element: Element) -> Option<Local> {
    if element.grandparent_is(SyntaxKind::Path) {
        match element.facts.path_resolution {
            Some(PathResolution::Local(local)) => Some(local),
            _ => None,
        }
    } else {
        None
    }
}

/// The highlight of `self`: a self parameter, `Mutable` where it is declared
/// `mut` or stands for a receiver that is mutable or a mutable reference,
/// and `Consuming` where it passes a receiver that is not `Copy` by value.
pub open spec fn self_highlight(element: Element) -> Highlight {
    let declared_mut = element.parent_is(SyntaxKind::SelfParam) && element.facts.in_mut_self_param;
    let mutable = match self_local(element) {
        Some(local) => local.is_self && (local.is_mut || local.ty_is_mutable_reference),
        None => false,
    };
    let consuming = match self_local(element) {
        Some(local) => consumed(element.ancestors@, local),
        None => false,
    };
    symbol(SymbolKind::SelfParam).plus_if(declared_mut || mutable, HighlightModifier::Mutable).plus_if(
        consuming,
        HighlightModifier::Consuming,
    )
}

fn highlight_self(element: &Element) -> (h: Highlight)
    ensures
        h == self_highlight(*element),
{
    let declared_mut = element.has_parent(SyntaxKind::SelfParam) && element.facts.in_mut_self_param;
    let mut mutable = false;
    let mut consuming = false;
    if element.has_grandparent(SyntaxKind::Path) {
        if let Some(PathResolution::Local(local)) = &element.facts.path_resolution {
            mutable = local.is_self && (local.is_mut || local.ty_is_mutable_reference);
            consuming = is_consumed_lvalue(&element.ancestors, local);
        }
    }
    symbol_highlight(SymbolKind::SelfParam).with_if(
        declared_mut || mutable,
        HighlightModifier::Mutable,
    ).with_if(consuming, HighlightModifier::Consuming)
}

/// The highlight of a keyword. The keywords that branch, loop or jump are
/// `ControlFlow`, `for` only where it does not belong to an impl. `unsafe`
/// is `Unsafe`, and so is `ref` in an identifier pattern that is flagged so.
/// `true` and `false` are literals, and `self` is a self parameter.
pub open spec fn keyword_highlight(element: Element) -> Highlight {
    let keyword = Highlight::plain(HighlightTag::Keyword);
    match element.kind {
        SyntaxKind::BreakKw
        | SyntaxKind::ContinueKw
        | SyntaxKind::ElseKw
        | SyntaxKind::IfKw
        | SyntaxKind::LoopKw
        | SyntaxKind::MatchKw
        | SyntaxKind::ReturnKw
        | SyntaxKind::WhileKw
        | SyntaxKind::InKw => keyword.plus(HighlightModifier::ControlFlow),
        SyntaxKind::ForKw => keyword.plus_if(
            !element.parent_is(SyntaxKind::Impl),
            HighlightModifier::ControlFlow,
        ),
        SyntaxKind::UnsafeKw => keyword.plus(HighlightModifier::Unsafe),
        SyntaxKind::TrueKw | SyntaxKind::FalseKw => Highlight::plain(HighlightTag::BoolLiteral),
        SyntaxKind::SelfKw => self_highlight(element),
        SyntaxKind::RefKw => keyword.plus_if(
            element.parent_is(SyntaxKind::IdentPat) && element.facts.flagged_unsafe,
            HighlightModifier::Unsafe,
        ),
        _ => keyword,
    }
}

fn highlight_keyword(element: &Element) -> (h: Highlight)
    ensures
        h == keyword_highlight(*element),
{
    let keyword = Highlight::new(HighlightTag::Keyword);
    match element.kind {
        SyntaxKind::BreakKw
        | SyntaxKind::ContinueKw
        | SyntaxKind::ElseKw
        | SyntaxKind::IfKw
        | SyntaxKind::LoopKw
        | SyntaxKind::MatchKw
        | SyntaxKind::ReturnKw
        | SyntaxKind::WhileKw
        | SyntaxKind::InKw => keyword.with(HighlightModifier::ControlFlow),
        SyntaxKind::ForKw => keyword.with_if(
            !is_child_of_impl(element),
            HighlightModifier::ControlFlow,
        ),
        SyntaxKind::UnsafeKw => keyword.with(HighlightModifier::Unsafe),
        SyntaxKind::TrueKw | SyntaxKind::FalseKw => Highlight::new(HighlightTag::BoolLiteral),
        SyntaxKind::SelfKw => highlight_self(element),
        SyntaxKind::RefKw => keyword.with_if(
            element.has_parent(SyntaxKind::IdentPat) && element.facts.flagged_unsafe,
            HighlightModifier::Unsafe,
        ),
        _ => keyword,
    }
}

/// The highlight of an element, if it has one.
///
/// Names, name references and lifetimes go by what the semantic model knows
/// of them. Comments, literals and attributes have the tag of their kind, a
/// documentation comment with `Documentation`. `?` is an operator that
/// directs control flow. Punctuation and keywords have their own rules.
/// Nothing else is highlighted.
pub open spec fn element_highlight(element: Element, syntactic: bool) -> Option<Highlight> {
    match element.kind {
        SyntaxKind::Fn => None,
        SyntaxKind::Name => Some(name_highlight(element)),
        SyntaxKind::NameRef => Some(name_ref_highlight(element, syntactic)),
        SyntaxKind::Comment => if element.is_token {
            Some(
                Highlight::plain(HighlightTag::Comment).plus_if(
                    element.facts.is_doc_comment,
                    HighlightModifier::Documentation,
                ),
            )
        } else {
            None
        },
        SyntaxKind::String | SyntaxKind::ByteString => Some(
            Highlight::plain(HighlightTag::StringLiteral),
        ),
        SyntaxKind::Attr => Some(Highlight::plain(HighlightTag::Attribute)),
        SyntaxKind::IntNumber | SyntaxKind::FloatNumber => Some(
            Highlight::plain(HighlightTag::NumericLiteral),
        ),
        SyntaxKind::Byte => Some(Highlight::plain(HighlightTag::ByteLiteral)),
        SyntaxKind::Char => Some(Highlight::plain(HighlightTag::CharLiteral)),
        SyntaxKind::Question => Some(
            Highlight::plain(HighlightTag::Operator).plus(HighlightModifier::ControlFlow),
        ),
        SyntaxKind::Lifetime => Some(lifetime_highlight(element)),
        kind => if kind.punct() {
            punct_highlight(element)
        } else if kind.keyword() {
            Some(keyword_highlight(element))
        } else {
            None
        },
    }
}

/// The local that the element binds, if it binds one that has a name.
pub open spec fn bound_local(element: Element) -> Option<Local> {
    if element.kind == SyntaxKind::Name {
        match element.facts.name_class {
            Some(NameClass::Definition(Definition::Local(local))) => if local.name is Some {
                Some(local)
            } else {
                None
            },
            _ => None,
        }
    } else {
        None
    }
}

/// The local that the element refers to, if it is highlighted as a
/// reference to one that has a name.
pub open spec fn used_local(element: Element) -> Option<Local> {
    if element.kind == SyntaxKind::NameRef && !element.within(SyntaxKind::Attr) && func_highlight(
        element,
    ) is None {
        match element.facts.name_ref_class {
            Some(NameRefClass::Definition(Definition::Local(local))) => if local.name is Some {
                Some(local)
            } else {
                None
            },
            _ => None,
        }
    } else {
        None
    }
}

/// The name of the local that the element binds, if it binds one that has a
/// name.
pub open spec fn bound_name(element: Element) -> Option<Seq<char>> {
    match bound_local(element) {
        Some(local) => Some(local.name.unwrap()@),
        None => None,
    }
}

/// The name of the local that the element refers to, if it is highlighted
/// as a reference to one that has a name.
pub open spec fn used_name(element: Element) -> Option<Seq<char>> {
    match used_local(element) {
        Some(local) => Some(local.name.unwrap()@),
        None => None,
    }
}

/// The binding hash of an element, given the counts before it and the
/// hashes that the locals bound before it were given.
///
/// A binding of a local is identified by its name and by how many locals of
/// that name have been bound up to and including it. A reference to a local
/// has the hash that the local was given where it was bound, whatever was
/// bound in between. A reference to a local whose binding was not seen is
/// identified by the name and the count as it stands.
pub open spec fn element_binding_hash(
    element: Element,
    counts: Map<Seq<char>, u32>,
    hashes: Map<TextRange, u64>,
) -> Option<u64> {
    match bound_name(element) {
        Some(name) => Some(binding_hash(name, (count_of(counts, name) + 1) as u32)),
        None => match used_local(element) {
            Some(local) => Some(
                if hashes.contains_key(local.declaration) {
                    hashes[local.declaration]
                } else {
                    binding_hash(local.name.unwrap()@, count_of(counts, local.name.unwrap()@))
                },
            ),
            None => None,
        },
    }
}

/// The counts after an element: none after a function node, one more for
/// the name of a local that is bound, and as before otherwise, but that a
/// name that is referred to is known from then on.
pub open spec fn counts_after(element: Element, counts: Map<Seq<char>, u32>) -> Map<Seq<char>, u32> {
    if element.kind == SyntaxKind::Fn {
        Map::empty()
    } else {
        match bound_name(element) {
            Some(name) => counts.insert(name, (count_of(counts, name) + 1) as u32),
            None => match used_name(element) {
                Some(name) => counts.insert(name, count_of(counts, name)),
                None => counts,
            },
        }
    }
}

/// The hashes after an element: a local that is bound is entered, at the
/// place of its declaration, with the hash that it is given; nothing else
/// changes them.
pub open spec fn hashes_after(
    element: Element,
    counts: Map<Seq<char>, u32>,
    hashes: Map<TextRange, u64>,
) -> Map<TextRange, u64> {
    match bound_local(element) {
        Some(local) => hashes.insert(
            local.declaration,
            binding_hash(local.name.unwrap()@, (count_of(counts, local.name.unwrap()@) + 1) as u32),
        ),
        None => hashes,
    }
}

/// Whether the element can be classified with the counts as they are: the
/// count of a name that it binds can still grow.
pub open spec fn countable(element: Element, counts: Map<Seq<char>, u32>) -> bool {
    match bound_name(element) {
        Some(name) => count_of(counts, name) < u32::MAX,
        None => true,
    }
}

/// Whether the element can be classified with the counts as they are.
pub fn is_countable(element: &Element, counts: &ShadowCounts) -> (b: bool)
    ensures
        b == countable(*element, counts@),
{
    if element.kind == SyntaxKind::Name {
        if let Some(NameClass::Definition(Definition::Local(local))) = &element.facts.name_class {
            if let Some(name) = &local.name {
                return counts.peek(name.as_str()) < u32::MAX;
            }
        }
    }
    true
}

/// Classifies one element: its highlight and its binding hash, if it has a
/// highlight at all. Keeps the counts of the names of locals, and the
/// hashes that the locals were given, up to date.
pub fn highlight_element(
    bindings_shadow_count: &mut ShadowCounts,
    syntactic_name_ref_highlighting: bool,
    element: &Element,
) -> (res: Option<(Highlight, Option<u64>)>)
    requires
        countable(*element, old(bindings_shadow_count)@),
    ensures
        res == match element_highlight(*element, syntactic_name_ref_highlighting) {
            Some(h) => Some(
                (
                    h,
                    element_binding_hash(
                        *element,
                        old(bindings_shadow_count)@,
                        old(bindings_shadow_count).hashes(),
                    ),
                ),
            ),
            None => None,
        },
        final(bindings_shadow_count)@ == counts_after(*element, old(bindings_shadow_count)@),
        final(bindings_shadow_count).hashes() == hashes_after(
            *element,
            old(bindings_shadow_count)@,
            old(bindings_shadow_count).hashes(),
        ),
{
    let mut binding_hash: Option<u64> = None;
    let highlight = match element.kind {
        SyntaxKind::Fn => {
            bindings_shadow_count.clear();
            return None;
        },
        SyntaxKind::Name => {
            if let Some(NameClass::Definition(Definition::Local(local))) = &element.facts.name_class {
                if let Some(name) = &local.name {
                    let shadow_count = bindings_shadow_count.bump(name.as_str());
                    let hash = calc_binding_hash(name.as_str(), shadow_count);
                    bindings_shadow_count.record(local.declaration, hash);
                    binding_hash = Some(hash);
                }
            }
            highlight_name(element)
        },
        SyntaxKind::NameRef => {
            let h = highlight_name_ref(element, syntactic_name_ref_highlighting);
            if !element.is_within(SyntaxKind::Attr) && highlight_func_by_name_ref(element).is_none() {
                if let Some(NameRefClass::Definition(Definition::Local(local))) =
                    &element.facts.name_ref_class {
                    if let Some(name) = &local.name {
                        let shadow_count = bindings_shadow_count.get_or_enter(name.as_str());
                        binding_hash = Some(
                            match bindings_shadow_count.hash_at(local.declaration) {
                                Some(hash) => hash,
                                None => calc_binding_hash(name.as_str(), shadow_count),
                            },
                        );
                    }
                }
            }
            h
        },
        SyntaxKind::Comment => {
            if !element.is_token {
                return None;
            }
            Highlight::new(HighlightTag::Comment).with_if(
                element.facts.is_doc_comment,
                HighlightModifier::Documentation,
            )
        },
        SyntaxKind::String | SyntaxKind::ByteString => Highlight::new(HighlightTag::StringLiteral),
        SyntaxKind::Attr => Highlight::new(HighlightTag::Attribute),
        SyntaxKind::IntNumber | SyntaxKind::FloatNumber => Highlight::new(
            HighlightTag::NumericLiteral,
        ),
        SyntaxKind::Byte => Highlight::new(HighlightTag::ByteLiteral),
        SyntaxKind::Char => Highlight::new(HighlightTag::CharLiteral),
        SyntaxKind::Question => Highlight::new(HighlightTag::Operator).with(
            HighlightModifier::ControlFlow,
        ),
        SyntaxKind::Lifetime => highlight_lifetime(element),
        kind => {
            if kind.is_punct() {
                match highlight_punct(element) {
                    Some(h) => h,
                    None => return None,
                }
            } else if kind.is_keyword() {
                highlight_keyword(element)
            } else {
                return None;
            }
        },
    };
    Some((highlight, binding_hash))
}

/// A reference to a local has the hash of the local's own binding: once a
/// local is bound, a reference to it has the hash that the binding had,
/// whatever the counts have become since, as long as the hashes still hold
/// what the binding entered.
pub proof fn lemma_reference_shares_hash(
    binding: Element,
    reference: Element,
    counts: Map<Seq<char>, u32>,
    hashes: Map<TextRange, u64>,
    later_counts: Map<Seq<char>, u32>,
    later_hashes: Map<TextRange, u64>,
)
    requires
        bound_local(binding) is Some,
        used_local(reference) is Some,
        used_local(reference).unwrap().declaration == bound_local(binding).unwrap().declaration,
        later_hashes.contains_key(bound_local(binding).unwrap().declaration),
        later_hashes[bound_local(binding).unwrap().declaration] == hashes_after(
            binding,
            counts,
            hashes,
        )[bound_local(binding).unwrap().declaration],
    ensures
        element_binding_hash(binding, counts, hashes) is Some,
        element_binding_hash(reference, later_counts, later_hashes) == element_binding_hash(
            binding,
            counts,
            hashes,
        ),
{
}

/// Only the binding of a local changes the hash that is held for the place
/// of its declaration. So the hash of a binding is still held, and a
/// reference still has it, however many other elements lie between the two:
/// function nodes, references, and bindings of other locals, of the same
/// name or of another.
pub proof fn lemma_hash_kept(
    element: Element,
    counts: Map<Seq<char>, u32>,
    hashes: Map<TextRange, u64>,
    place: TextRange,
)
    requires
        hashes.contains_key(place),
        bound_local(element) matches Some(local) ==> local.declaration != place,
    ensures
        hashes_after(element, counts, hashes).contains_key(place),
        hashes_after(element, counts, hashes)[place] == hashes[place],
{
}

/// A reference does not count as a binding: it leaves the count of every
/// name as it was, and so do all elements but a function node and the
/// binding of a local of that name.
pub proof fn lemma_count_kept(element: Element, counts: Map<Seq<char>, u32>, name: Seq<char>)
    requires
        element.kind != SyntaxKind::Fn,
        bound_name(element) != Some(name),
    ensures
        count_of(counts_after(element, counts), name) == count_of(counts, name),
{
}

/// Two locals of one name that are bound one after the other in a function
/// are told apart: the hash of each is that of the name and of its count,
/// and the count of the second is one more than that of the first. So the
/// two hashes differ unless the hash function maps the two counts of the
/// name to one value.
pub proof fn lemma_shadowing_bindings_differ(
    first: Element,
    second: Element,
    counts: Map<Seq<char>, u32>,
    hashes: Map<TextRange, u64>,
)
    requires
        bound_name(first) is Some,
        bound_name(second) == bound_name(first),
        countable(first, counts),
        countable(second, counts_after(first, counts)),
    ensures
        ({
            let name = bound_name(first).unwrap();
            let count = count_of(counts, name);
            let then = hashes_after(first, counts, hashes);
            &&& element_binding_hash(first, counts, hashes) == Some(
                binding_hash(name, (count + 1) as u32),
            )
            &&& element_binding_hash(second, counts_after(first, counts), then) == Some(
                binding_hash(name, (count + 2) as u32),
            )
            &&& (count + 1) as u32 != (count + 2) as u32
            &&& binding_hash(name, (count + 1) as u32) != binding_hash(name, (count + 2) as u32)
                ==> element_binding_hash(first, counts, hashes) != element_binding_hash(
                second,
                counts_after(first, counts),
                then,
            )
        }),
{
}

/// A function node starts the counts anew: the first local of a name that
/// is bound in a function has the count one whatever came before.
pub proof fn lemma_function_resets_counts(
    function: Element,
    binding: Element,
    counts: Map<Seq<char>, u32>,
    hashes: Map<TextRange, u64>,
)
    requires
        function.kind == SyntaxKind::Fn,
        bound_name(binding) is Some,
    ensures
        hashes_after(function, counts, hashes) == hashes,
        element_binding_hash(binding, counts_after(function, counts), hashes) == Some(
            binding_hash(bound_name(binding).unwrap(), 1),
        ),
{
}

/// The modifiers of a definition, one by one. A definition is `Mutable` if
/// it is a mutable static, or a local that is declared `mut` or is a
/// mutable reference; `Unsafe` if it is a mutable static or an unsafe
/// function; `Associated` if it is a function, constant or type alias of an
/// impl or trait; `Static` if it is such a function without a receiver;
/// `Callable` if it is a local whose type can be called. It carries no
/// other modifier.
pub proof fn lemma_def_modifiers(def: Definition, m: HighlightModifier)
    ensures
        def_highlight(def).has(m) == match m {
            HighlightModifier::Mutable => match def {
                Definition::Static { is_mut } => is_mut,
                Definition::Local(local) => local.is_mut || local.ty_is_mutable_reference,
                _ => false,
            },
            HighlightModifier::Unsafe => match def {
                Definition::Static { is_mut } => is_mut,
                Definition::Function(func) => func.is_unsafe,
                _ => false,
            },
            HighlightModifier::Associated => match def {
                Definition::Function(func) => func.is_associated,
                Definition::Const { is_associated } => is_associated,
                Definition::TypeAlias { is_associated } => is_associated,
                _ => false,
            },
            HighlightModifier::Static => match def {
                Definition::Function(func) => func.is_associated && !func.has_self_param,
                _ => false,
            },
            HighlightModifier::Callable => match def {
                Definition::Local(local) => local.ty_is_callable,
                _ => false,
            },
            _ => false,
        },
{
    match def {
        Definition::Function(func) => {
            let a = symbol(SymbolKind::Function);
            let b = a.plus_if(func.is_associated, HighlightModifier::Associated);
            let c = b.plus_if(func.is_associated && !func.has_self_param, HighlightModifier::Static);
            Highlight::lemma_plain(HighlightTag::Symbol(SymbolKind::Function), m);
            a.lemma_plus_if(func.is_associated, HighlightModifier::Associated, m);
            b.lemma_plus_if(
                func.is_associated && !func.has_self_param,
                HighlightModifier::Static,
                m,
            );
            c.lemma_plus_if(func.is_unsafe, HighlightModifier::Unsafe, m);
        },
        Definition::Const { is_associated } => {
            Highlight::lemma_plain(HighlightTag::Symbol(SymbolKind::Const), m);
            symbol(SymbolKind::Const).lemma_plus_if(is_associated, HighlightModifier::Associated, m);
        },
        Definition::TypeAlias { is_associated } => {
            Highlight::lemma_plain(HighlightTag::Symbol(SymbolKind::TypeAlias), m);
            symbol(SymbolKind::TypeAlias).lemma_plus_if(
                is_associated,
                HighlightModifier::Associated,
                m,
            );
        },
        Definition::Static { is_mut } => {
            let a = symbol(SymbolKind::Static);
            Highlight::lemma_plain(HighlightTag::Symbol(SymbolKind::Static), m);
            a.lemma_plus_if(is_mut, HighlightModifier::Mutable, m);
            a.plus_if(is_mut, HighlightModifier::Mutable).lemma_plus_if(
                is_mut,
                HighlightModifier::Unsafe,
                m,
            );
        },
        Definition::Local(local) => {
            let kind = if local.is_param {
                SymbolKind::ValueParam
            } else {
                SymbolKind::Local
            };
            let a = symbol(kind);
            Highlight::lemma_plain(HighlightTag::Symbol(kind), m);
            a.lemma_plus_if(
                local.is_mut || local.ty_is_mutable_reference,
                HighlightModifier::Mutable,
                m,
            );
            a.plus_if(
                local.is_mut || local.ty_is_mutable_reference,
                HighlightModifier::Mutable,
            ).lemma_plus_if(local.ty_is_callable, HighlightModifier::Callable, m);
        },
        _ => {
            Highlight::lemma_plain(def_highlight(def).tag, m);
            assert(def_highlight(def) == Highlight::plain(def_highlight(def).tag));
        },
    }
}

/// The modifiers of the name of a method whose call is resolved, one by
/// one: it is always `Associated`; `Unsafe` if the callee or the call is;
/// `Mutable` if the receiver is taken exclusively; `Consuming` if the
/// receiver is taken by value and is known not to be `Copy`; and it carries
/// no other modifier.
pub proof fn lemma_method_call_modifiers(call: MethodCall, m: HighlightModifier)
    ensures
        method_call_highlight(call).tag == HighlightTag::Symbol(SymbolKind::Function),
        method_call_highlight(call).has(m) == match m {
            HighlightModifier::Associated => true,
            HighlightModifier::Unsafe => call.callee_is_unsafe || call.call_is_unsafe,
            HighlightModifier::Mutable => call.self_access == Some(Access::Exclusive),
            HighlightModifier::Consuming => call.self_access == Some(Access::Owned)
                && call.receiver_is_copy == Some(false),
            _ => false,
        },
{
    let a = symbol(SymbolKind::Function);
    let b = a.plus(HighlightModifier::Associated);
    let c = b.plus_if(call.callee_is_unsafe || call.call_is_unsafe, HighlightModifier::Unsafe);
    let d = c.plus_if(call.self_access == Some(Access::Exclusive), HighlightModifier::Mutable);
    Highlight::lemma_plain(HighlightTag::Symbol(SymbolKind::Function), m);
    a.lemma_plus_if(true, HighlightModifier::Associated, m);
    b.lemma_plus_if(
        call.callee_is_unsafe || call.call_is_unsafe,
        HighlightModifier::Unsafe,
        m,
    );
    c.lemma_plus_if(call.self_access == Some(Access::Exclusive), HighlightModifier::Mutable, m);
    d.lemma_plus_if(
        call.self_access == Some(Access::Owned) && call.receiver_is_copy == Some(false),
        HighlightModifier::Consuming,
        m,
    );
}

/// A reference to a local that is passed by value and is not `Copy` is
/// `Consuming`, whatever else it is.
pub proof fn lemma_consumed_local(name: Element, local: Local, syntactic: bool)
    requires
        name.kind == SyntaxKind::NameRef,
        !name.within(SyntaxKind::Attr),
        func_highlight(name) is None,
        name.facts.name_ref_class == Some(NameRefClass::Definition(Definition::Local(local))),
    ensures
        element_highlight(name, syntactic) is Some,
        element_highlight(name, syntactic).unwrap().has(HighlightModifier::Consuming) == consumed(
            name.ancestors@,
            local,
        ),
        element_highlight(name, syntactic).unwrap().tag == HighlightTag::Symbol(
            if local.is_param {
                SymbolKind::ValueParam
            } else {
                SymbolKind::Local
            },
        ),
{
    let def = Definition::Local(local);
    let m = HighlightModifier::Consuming;
    lemma_def_modifiers(def, m);
    let a = def_highlight(def);
    a.lemma_plus_if(consumes(name.ancestors@, def), HighlightModifier::Consuming, m);
    a.plus_if(consumes(name.ancestors@, def), HighlightModifier::Consuming).lemma_plus_if(
        (name.parent_is(SyntaxKind::FieldExpr) || name.parent_is(SyntaxKind::RecordPatField))
            && is_union_field(def),
        HighlightModifier::Unsafe,
        m,
    );
    let kind = if local.is_param {
        SymbolKind::ValueParam
    } else {
        SymbolKind::Local
    };
    symbol(kind).lemma_plus_if(
        local.is_mut || local.ty_is_mutable_reference,
        HighlightModifier::Mutable,
        m,
    );
    symbol(kind).plus_if(
        local.is_mut || local.ty_is_mutable_reference,
        HighlightModifier::Mutable,
    ).lemma_plus_if(local.ty_is_callable, HighlightModifier::Callable, m);
}

} // verus!
