//! The kinds of the tokens and nodes of a syntax tree.

use vstd::prelude::*;

verus! {

/// The kind of a token or of a node.
#[derive(Clone, Copy, Debug, PartialEq, Eq, Hash, Structural)]
pub enum SyntaxKind {
    // Punctuation.
    Semicolon,
    Comma,
    LParen,
    RParen,
    LCurly,
    RCurly,
    LBrack,
    RBrack,
    LAngle,
    RAngle,
    At,
    Pound,
    Tilde,
    Question,
    Dollar,
    Amp,
    Pipe,
    Plus,
    Star,
    Slash,
    Caret,
    Percent,
    Underscore,
    Dot,
    Dot2,
    Dot3,
    Dot2eq,
    Colon,
    Colon2,
    Eq,
    Eq2,
    FatArrow,
    Bang,
    Neq,
    Minus,
    ThinArrow,
    Lteq,
    Gteq,
    Pluseq,
    Minuseq,
    Pipeeq,
    Ampeq,
    Careteq,
    Slasheq,
    Stareq,
    Percenteq,
    Amp2,
    Pipe2,
    Shl,
    Shr,
    Shleq,
    Shreq,
    // Keywords.
    AsKw,
    AsyncKw,
    AwaitKw,
    BoxKw,
    BreakKw,
    ConstKw,
    ContinueKw,
    CrateKw,
    DynKw,
    ElseKw,
    EnumKw,
    ExternKw,
    FalseKw,
    FnKw,
    ForKw,
    IfKw,
    ImplKw,
    InKw,
    LetKw,
    LoopKw,
    MacroKw,
    MatchKw,
    ModKw,
    MoveKw,
    MutKw,
    PubKw,
    RefKw,
    ReturnKw,
    SelfKw,
    StaticKw,
    StructKw,
    SuperKw,
    TraitKw,
    TrueKw,
    TryKw,
    TypeKw,
    UnsafeKw,
    UseKw,
    WhereKw,
    WhileKw,
    YieldKw,
    AutoKw,
    DefaultKw,
    ExistentialKw,
    UnionKw,
    RawKw,
    MacroRulesKw,
    // Literals.
    IntNumber,
    FloatNumber,
    Char,
    Byte,
    String,
    ByteString,
    // Other tokens.
    Error,
    Ident,
    Whitespace,
    LifetimeIdent,
    Comment,
    Shebang,
    LDollar,
    RDollar,
    // Nodes.
    SourceFile,
    Struct,
    Union,
    Enum,
    Fn,
    RetType,
    ExternCrate,
    Module,
    Use,
    Static,
    Const,
    Trait,
    Impl,
    TypeAlias,
    MacroCall,
    MacroRules,
    MacroArm,
    TokenTree,
    MacroDef,
    ParenType,
    TupleType,
    MacroType,
    NeverType,
    PathType,
    PtrType,
    ArrayType,
    SliceType,
    RefType,
    InferType,
    FnPtrType,
    ForType,
    ImplTraitType,
    DynTraitType,
    OrPat,
    ParenPat,
    RefPat,
    BoxPat,
    IdentPat,
    WildcardPat,
    RestPat,
    PathPat,
    RecordPat,
    RecordPatFieldList,
    RecordPatField,
    TupleStructPat,
    TuplePat,
    SlicePat,
    RangePat,
    LiteralPat,
    MacroPat,
    ConstBlockPat,
    TupleExpr,
    ArrayExpr,
    ParenExpr,
    PathExpr,
    ClosureExpr,
    IfExpr,
    WhileExpr,
    Condition,
    LoopExpr,
    ForExpr,
    ContinueExpr,
    BreakExpr,
    Label,
    BlockExpr,
    ReturnExpr,
    YieldExpr,
    MatchExpr,
    MatchArmList,
    MatchArm,
    MatchGuard,
    RecordExpr,
    RecordExprFieldList,
    RecordExprField,
    EffectExpr,
    BoxExpr,
    CallExpr,
    IndexExpr,
    MethodCallExpr,
    FieldExpr,
    AwaitExpr,
    TryExpr,
    CastExpr,
    RefExpr,
    PrefixExpr,
    RangeExpr,
    BinExpr,
    ExternBlock,
    ExternItemList,
    Variant,
    RecordFieldList,
    RecordField,
    TupleFieldList,
    TupleField,
    VariantList,
    ItemList,
    AssocItemList,
    Attr,
    MetaItem,
    UseTree,
    UseTreeList,
    Path,
    PathSegment,
    Literal,
    Rename,
    Visibility,
    WhereClause,
    WherePred,
    Abi,
    Name,
    NameRef,
    LetStmt,
    ExprStmt,
    GenericParamList,
    GenericParam,
    LifetimeParam,
    TypeParam,
    ConstParam,
    GenericArgList,
    Lifetime,
    LifetimeArg,
    TypeArg,
    AssocTypeArg,
    ConstArg,
    ParamList,
    Param,
    SelfParam,
    ArgList,
    TypeBound,
    TypeBoundList,
    MacroItems,
    MacroStmts,
}

impl SyntaxKind {
    /// Whether the kind is one of the punctuation tokens.
    pub open spec fn punct(self) -> bool {
        match self {
            SyntaxKind::Semicolon
            | SyntaxKind::Comma
            | SyntaxKind::LParen
            | SyntaxKind::RParen
            | SyntaxKind::LCurly
            | SyntaxKind::RCurly
            | SyntaxKind::LBrack
            | SyntaxKind::RBrack
            | SyntaxKind::LAngle
            | SyntaxKind::RAngle
            | SyntaxKind::At
            | SyntaxKind::Pound
            | SyntaxKind::Tilde
            | SyntaxKind::Question
            | SyntaxKind::Dollar
            | SyntaxKind::Amp
            | SyntaxKind::Pipe
            | SyntaxKind::Plus
            | SyntaxKind::Star
            | SyntaxKind::Slash
            | SyntaxKind::Caret
            | SyntaxKind::Percent
            | SyntaxKind::Underscore
            | SyntaxKind::Dot
            | SyntaxKind::Dot2
            | SyntaxKind::Dot3
            | SyntaxKind::Dot2eq
            | SyntaxKind::Colon
            | SyntaxKind::Colon2
            | SyntaxKind::Eq
            | SyntaxKind::Eq2
            | SyntaxKind::FatArrow
            | SyntaxKind::Bang
            | SyntaxKind::Neq
            | SyntaxKind::Minus
            | SyntaxKind::ThinArrow
            | SyntaxKind::Lteq
            | SyntaxKind::Gteq
            | SyntaxKind::Pluseq
            | SyntaxKind::Minuseq
            | SyntaxKind::Pipeeq
            | SyntaxKind::Ampeq
            | SyntaxKind::Careteq
            | SyntaxKind::Slasheq
            | SyntaxKind::Stareq
            | SyntaxKind::Percenteq
            | SyntaxKind::Amp2
            | SyntaxKind::Pipe2
            | SyntaxKind::Shl
            | SyntaxKind::Shr
            | SyntaxKind::Shleq
            | SyntaxKind::Shreq
            => true,
            _ => false,
        }
    }

    /// Whether the kind is one of the keywords.
    pub open spec fn keyword(self) -> bool {
        match self {
            SyntaxKind::AsKw
            | SyntaxKind::AsyncKw
            | SyntaxKind::AwaitKw
            | SyntaxKind::BoxKw
            | SyntaxKind::BreakKw
            | SyntaxKind::ConstKw
            | SyntaxKind::ContinueKw
            | SyntaxKind::CrateKw
            | SyntaxKind::DynKw
            | SyntaxKind::ElseKw
            | SyntaxKind::EnumKw
            | SyntaxKind::ExternKw
            | SyntaxKind::FalseKw
            | SyntaxKind::FnKw
            | SyntaxKind::ForKw
            | SyntaxKind::IfKw
            | SyntaxKind::ImplKw
            | SyntaxKind::InKw
            | SyntaxKind::LetKw
            | SyntaxKind::LoopKw
            | SyntaxKind::MacroKw
            | SyntaxKind::MatchKw
            | SyntaxKind::ModKw
            | SyntaxKind::MoveKw
            | SyntaxKind::MutKw
            | SyntaxKind::PubKw
            | SyntaxKind::RefKw
            | SyntaxKind::ReturnKw
            | SyntaxKind::SelfKw
            | SyntaxKind::StaticKw
            | SyntaxKind::StructKw
            | SyntaxKind::SuperKw
            | SyntaxKind::TraitKw
            | SyntaxKind::TrueKw
            | SyntaxKind::TryKw
            | SyntaxKind::TypeKw
            | SyntaxKind::UnsafeKw
            | SyntaxKind::UseKw
            | SyntaxKind::WhereKw
            | SyntaxKind::WhileKw
            | SyntaxKind::YieldKw
            | SyntaxKind::AutoKw
            | SyntaxKind::DefaultKw
            | SyntaxKind::ExistentialKw
            | SyntaxKind::UnionKw
            | SyntaxKind::RawKw
            | SyntaxKind::MacroRulesKw
            => true,
            _ => false,
        }
    }

    pub fn is_punct(self) -> (b: bool)
        ensures
            b == self.punct(),
    {
        match self {
            SyntaxKind::Semicolon
            | SyntaxKind::Comma
            | SyntaxKind::LParen
            | SyntaxKind::RParen
            | SyntaxKind::LCurly
            | SyntaxKind::RCurly
            | SyntaxKind::LBrack
            | SyntaxKind::RBrack
            | SyntaxKind::LAngle
            | SyntaxKind::RAngle
            | SyntaxKind::At
            | SyntaxKind::Pound
            | SyntaxKind::Tilde
            | SyntaxKind::Question
            | SyntaxKind::Dollar
            | SyntaxKind::Amp
            | SyntaxKind::Pipe
            | SyntaxKind::Plus
            | SyntaxKind::Star
            | SyntaxKind::Slash
            | SyntaxKind::Caret
            | SyntaxKind::Percent
            | SyntaxKind::Underscore
            | SyntaxKind::Dot
            | SyntaxKind::Dot2
            | SyntaxKind::Dot3
            | SyntaxKind::Dot2eq
            | SyntaxKind::Colon
            | SyntaxKind::Colon2
            | SyntaxKind::Eq
            | SyntaxKind::Eq2
            | SyntaxKind::FatArrow
            | SyntaxKind::Bang
            | SyntaxKind::Neq
            | SyntaxKind::Minus
            | SyntaxKind::ThinArrow
            | SyntaxKind::Lteq
            | SyntaxKind::Gteq
            | SyntaxKind::Pluseq
            | SyntaxKind::Minuseq
            | SyntaxKind::Pipeeq
            | SyntaxKind::Ampeq
            | SyntaxKind::Careteq
            | SyntaxKind::Slasheq
            | SyntaxKind::Stareq
            | SyntaxKind::Percenteq
            | SyntaxKind::Amp2
            | SyntaxKind::Pipe2
            | SyntaxKind::Shl
            | SyntaxKind::Shr
            | SyntaxKind::Shleq
            | SyntaxKind::Shreq
            => true,
            _ => false,
        }
    }

    pub fn is_keyword(self) -> (b: bool)
        ensures
            b == self.keyword(),
    {
        match self {
            SyntaxKind::AsKw
            | SyntaxKind::AsyncKw
            | SyntaxKind::AwaitKw
            | SyntaxKind::BoxKw
            | SyntaxKind::BreakKw
            | SyntaxKind::ConstKw
            | SyntaxKind::ContinueKw
            | SyntaxKind::CrateKw
            | SyntaxKind::DynKw
            | SyntaxKind::ElseKw
            | SyntaxKind::EnumKw
            | SyntaxKind::ExternKw
            | SyntaxKind::FalseKw
            | SyntaxKind::FnKw
            | SyntaxKind::ForKw
            | SyntaxKind::IfKw
            | SyntaxKind::ImplKw
            | SyntaxKind::InKw
            | SyntaxKind::LetKw
            | SyntaxKind::LoopKw
            | SyntaxKind::MacroKw
            | SyntaxKind::MatchKw
            | SyntaxKind::ModKw
            | SyntaxKind::MoveKw
            | SyntaxKind::MutKw
            | SyntaxKind::PubKw
            | SyntaxKind::RefKw
            | SyntaxKind::ReturnKw
            | SyntaxKind::SelfKw
            | SyntaxKind::StaticKw
            | SyntaxKind::StructKw
            | SyntaxKind::SuperKw
            | SyntaxKind::TraitKw
            | SyntaxKind::TrueKw
            | SyntaxKind::TryKw
            | SyntaxKind::TypeKw
            | SyntaxKind::UnsafeKw
            | SyntaxKind::UseKw
            | SyntaxKind::WhereKw
            | SyntaxKind::WhileKw
            | SyntaxKind::YieldKw
            | SyntaxKind::AutoKw
            | SyntaxKind::DefaultKw
            | SyntaxKind::ExistentialKw
            | SyntaxKind::UnionKw
            | SyntaxKind::RawKw
            | SyntaxKind::MacroRulesKw
            => true,
            _ => false,
        }
    }
}

} // verus!
