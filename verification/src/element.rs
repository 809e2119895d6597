//! The elements of a syntax tree as the highlighter reads them: the kind and
//! place of a token or node, and what the semantic model knows of it.

use crate::syntax_kind::SyntaxKind;
use crate::text_range::TextRange;
use vstd::prelude::*;

verus! {

/// How a method takes its receiver.
#[derive(Clone, Copy, Debug, PartialEq, Eq, Structural)]
pub enum Access {
    Shared,
    Exclusive,
    Owned,
}

/// A local variable or a parameter.
#[derive(Clone, Debug, PartialEq, Eq)]
pub struct Local {
    pub name: Option<String>,
    /// Where the local is declared: the place of the name that binds it.
    /// Two locals are the same where they are declared at the same place.
    pub declaration: TextRange,
    pub is_param: bool,
    pub is_self: bool,
    pub is_mut: bool,
    pub ty_is_mutable_reference: bool,
    /// The type can be called: a function, a closure, or what implements
    /// `FnOnce`.
    pub ty_is_callable: bool,
    pub ty_is_copy: bool,
}

/// A function.
#[derive(Clone, Copy, Debug, PartialEq, Eq, Structural)]
pub struct Function {
    /// It is an item of an impl or a trait.
    pub is_associated: bool,
    pub has_self_param: bool,
    pub is_unsafe: bool,
}

/// What a name stands for.
#[derive(Clone, Debug, PartialEq, Eq)]
pub enum Definition {
    Macro,
    Field { in_union: bool },
    Module,
    Function(Function),
    Struct,
    Enum,
    Union,
    Variant,
    Const { is_associated: bool },
    Trait,
    TypeAlias { is_associated: bool },
    BuiltinType,
    Static { is_mut: bool },
    SelfType,
    TypeParam,
    ConstParam,
    Local(Local),
    LifetimeParam,
    Label,
}

/// What the semantic model says of a name at the place where it is bound.
#[derive(Clone, Debug, PartialEq, Eq)]
pub enum NameClass {
    ExternCrate,
    Definition(Definition),
    /// A pattern that looks like a binding and refers to a constant.
    ConstReference(Definition),
    /// The shorthand `S { field }` in a pattern, which binds a local and
    /// refers to a field.
    PatFieldShorthand { field_ref: Definition },
}

/// What the semantic model says of a name at a place where it is used.
#[derive(Clone, Debug, PartialEq, Eq)]
pub enum NameRefClass {
    ExternCrate,
    Definition(Definition),
    FieldShorthand,
}

/// A method call whose callee is resolved.
#[derive(Clone, Copy, Debug, PartialEq, Eq, Structural)]
pub struct MethodCall {
    pub callee_is_unsafe: bool,
    /// The call itself is flagged as an unsafe operation.
    pub call_is_unsafe: bool,
    /// How the callee takes its receiver, if it has one.
    pub self_access: Option<Access>,
    /// Whether the receiver's type is `Copy`, if the type is known.
    pub receiver_is_copy: Option<bool>,
}

/// The operand of a prefix expression.
#[derive(Clone, Copy, Debug, PartialEq, Eq, Structural)]
pub struct Operand {
    pub is_literal: bool,
    /// Whether the operand's type is a raw pointer, if the type is known.
    pub ty_is_raw_ptr: Option<bool>,
}

/// What a path resolves to.
#[derive(Clone, Debug, PartialEq, Eq)]
pub enum PathResolution {
    Local(Local),
    Other,
}

/// The answers of the semantic model about one element. An answer that does
/// not apply to the element's kind is not read.
#[derive(Clone, Debug, PartialEq, Eq)]
pub struct Facts {
    /// Of a name or a lifetime: its class as a binding.
    pub name_class: Option<NameClass>,
    /// Of a name reference or a lifetime: its class as a use.
    pub name_ref_class: Option<NameRefClass>,
    /// Of the name of a method in a method call: the call, if its callee is
    /// resolved.
    pub method_call: Option<MethodCall>,
    /// Of the name of a field in a field expression: whether the field
    /// belongs to a union, if the field is resolved.
    pub field_in_union: Option<bool>,
    /// Of a name reference: whether its text starts with an upper-case
    /// letter.
    pub starts_uppercase: bool,
    /// Of a comment: whether it is a documentation comment.
    pub is_doc_comment: bool,
    /// Of `&` in a reference expression and of `ref` in an identifier
    /// pattern: whether that expression or pattern is flagged as unsafe.
    pub flagged_unsafe: bool,
    /// Of the operator of a prefix expression: its operand, if there is one.
    pub operand: Option<Operand>,
    /// Of the operator of a prefix expression: whether it dereferences.
    pub op_is_deref: bool,
    /// Of `self` in a self parameter: whether the parameter is declared
    /// `mut`.
    pub in_mut_self_param: bool,
    /// Of a token in a path segment: what the path around the segment
    /// resolves to.
    pub path_resolution: Option<PathResolution>,
    /// Of a token: the kind of the token before it.
    pub prev_token: Option<SyntaxKind>,
    /// Of a token: the name of the macro that is called by the parent of the
    /// token's parent, if that is a macro call with a name.
    pub enclosing_macro: Option<String>,
    /// Of a token: the place of the second child of its parent, whitespace
    /// not counted, if that child is a string literal.
    pub template: Option<TextRange>,
    /// Of a string literal: whether it is a raw string.
    pub is_raw: bool,
    /// Of a string literal: the pieces that it falls into when read as a
    /// format string, each placed relative to the literal's start.
    pub format_pieces: Vec<FormatPiece>,
    /// Of a string literal: the pieces that stand for one character each,
    /// placed relative to the literal's start; none if the literal cannot be
    /// cut into them.
    pub char_ranges: Option<Vec<CharPiece>>,
}

/// The kind of a piece of a format string.
#[derive(Clone, Copy, Debug, PartialEq, Eq, Structural)]
pub enum FormatSpecifier {
    Open,
    Close,
    Integer,
    Identifier,
    Colon,
    Fill,
    Align,
    Sign,
    NumberSign,
    Zero,
    DollarSign,
    Dot,
    Asterisk,
    QuestionMark,
}

/// A piece of a format string.
#[derive(Clone, Copy, Debug, PartialEq, Eq, Structural)]
pub struct FormatPiece {
    pub range: TextRange,
    pub kind: FormatSpecifier,
}

/// A piece of a string literal that stands for one character.
#[derive(Clone, Copy, Debug, PartialEq, Eq, Structural)]
pub struct CharPiece {
    pub range: TextRange,
    /// The piece is a character or a valid escape sequence.
    pub is_valid: bool,
    /// The piece starts with a backslash.
    pub starts_with_backslash: bool,
}

impl Facts {
    /// The facts of an element of which nothing is known.
    pub open spec fn unknown(facts: Facts) -> bool {
        &&& facts.name_class is None
        &&& facts.name_ref_class is None
        &&& facts.method_call is None
        &&& facts.field_in_union is None
        &&& !facts.starts_uppercase
        &&& !facts.is_doc_comment
        &&& !facts.flagged_unsafe
        &&& facts.operand is None
        &&& !facts.op_is_deref
        &&& !facts.in_mut_self_param
        &&& facts.path_resolution is None
        &&& facts.prev_token is None
        &&& facts.enclosing_macro is None
        &&& facts.template is None
        &&& !facts.is_raw
        &&& facts.format_pieces@.len() == 0
        &&& facts.char_ranges is None
    }

    /// The facts of an element of which nothing is known.
    pub fn new() -> (facts: Facts)
        ensures
            Self::unknown(facts),
    {
        Facts {
            name_class: None,
            name_ref_class: None,
            method_call: None,
            field_in_union: None,
            starts_uppercase: false,
            is_doc_comment: false,
            flagged_unsafe: false,
            operand: None,
            op_is_deref: false,
            in_mut_self_param: false,
            path_resolution: None,
            prev_token: None,
            enclosing_macro: None,
            template: None,
            is_raw: false,
            format_pieces: Vec::new(),
            char_ranges: None,
        }
    }
}

/// A token or a node, with the kinds of the nodes around it.
#[derive(Clone, Debug, PartialEq, Eq)]
pub struct Element {
    pub kind: SyntaxKind,
    pub is_token: bool,
    pub range: TextRange,
    /// The kinds of the nodes that hold the element, the parent first.
    pub ancestors: Vec<SyntaxKind>,
    pub facts: Facts,
}

impl Element {
    /// A token of the given kind and place, of which nothing else is known.
    pub fn token(kind: SyntaxKind, range: TextRange, ancestors: Vec<SyntaxKind>) -> (element:
        Element)
        ensures
            element.kind == kind,
            element.is_token,
            element.range == range,
            element.ancestors == ancestors,
            Facts::unknown(element.facts),
    {
        Element { kind, is_token: true, range, ancestors, facts: Facts::new() }
    }

    /// A node of the given kind and place, of which nothing else is known.
    pub fn node(kind: SyntaxKind, range: TextRange, ancestors: Vec<SyntaxKind>) -> (element:
        Element)
        ensures
            element.kind == kind,
            !element.is_token,
            element.range == range,
            element.ancestors == ancestors,
            Facts::unknown(element.facts),
    {
        Element { kind, is_token: false, range, ancestors, facts: Facts::new() }
    }

    /// Whether the element has a parent, and that of kind `kind`.
    pub open spec fn parent_is(&self, kind: SyntaxKind) -> bool {
        self.ancestors@.len() > 0 && self.ancestors@[0] == kind
    }

    /// Whether the element's parent has a parent, and that of kind `kind`.
    pub open spec fn grandparent_is(&self, kind: SyntaxKind) -> bool {
        self.ancestors@.len() > 1 && self.ancestors@[1] == kind
    }

    /// Whether one of the nodes around the element is of kind `kind`.
    pub open spec fn within(&self, kind: SyntaxKind) -> bool {
        self.ancestors@.contains(kind)
    }

    pub fn has_parent(&self, kind: SyntaxKind) -> (b: bool)
        ensures
            b == self.parent_is(kind),
    {
        self.ancestors.len() > 0 && self.ancestors[0] == kind
    }

    pub fn has_grandparent(&self, kind: SyntaxKind) -> (b: bool)
        ensures
            b == self.grandparent_is(kind),
    {
        self.ancestors.len() > 1 && self.ancestors[1] == kind
    }

    pub fn is_within(&self, kind: SyntaxKind) -> (b: bool)
        ensures
            b == self.within(kind),
    {
        let mut i: usize = 0;
        while i < self.ancestors.len()
            invariant
                0 <= i <= self.ancestors@.len(),
                forall|j: int| 0 <= j < i ==> self.ancestors@[j] != kind,
            decreases self.ancestors@.len() - i,
        {
            if self.ancestors[i] == kind {
                return true;
            }
            i += 1;
        }
        false
    }
}

} // verus!
