//! What a highlighted range is tagged with: one tag, and a set of modifiers.

use vstd::prelude::*;

verus! {

/// The kind of a named entity.
#[derive(Clone, Copy, Debug, PartialEq, Eq, Hash, Structural)]
pub enum SymbolKind {
    Const,
    ConstParam,
    Enum,
    Field,
    Function,
    Impl,
    Label,
    LifetimeParam,
    Local,
    Macro,
    Module,
    SelfParam,
    Static,
    Struct,
    Trait,
    TypeAlias,
    TypeParam,
    Union,
    ValueParam,
    Variant,
}

/// The semantic category of a range.
#[derive(Clone, Copy, Debug, PartialEq, Eq, Hash, Structural)]
pub enum HighlightTag {
    Symbol(SymbolKind),
    BoolLiteral,
    BuiltinType,
    ByteLiteral,
    CharLiteral,
    NumericLiteral,
    StringLiteral,
    Attribute,
    Comment,
    EscapeSequence,
    FormatSpecifier,
    Keyword,
    Punctuation,
    Operator,
    UnresolvedReference,
    /// For a range that has no category of its own and only carries modifiers.
    Dummy,
}

/// A property of a range that is independent of its tag.
#[derive(Clone, Copy, Debug, PartialEq, Eq, Hash, Structural)]
pub enum HighlightModifier {
    /// The range is part of an attribute.
    Attribute,
    /// A keyword that directs control flow, such as `if` or `break`.
    ControlFlow,
    /// The name is being defined here, not referred to.
    Definition,
    Documentation,
    /// The range stems from code embedded in a string or a comment.
    Injected,
    Mutable,
    Consuming,
    Unsafe,
    Callable,
    /// An associated function without a receiver.
    Static,
    /// An item of an impl or a trait.
    Associated,
}

impl HighlightModifier {
    /// The position of the modifier's flag.
    pub open spec fn index(self) -> u32 {
        match self {
            HighlightModifier::Attribute => 0,
            HighlightModifier::ControlFlow => 1,
            HighlightModifier::Definition => 2,
            HighlightModifier::Documentation => 3,
            HighlightModifier::Injected => 4,
            HighlightModifier::Mutable => 5,
            HighlightModifier::Consuming => 6,
            HighlightModifier::Unsafe => 7,
            HighlightModifier::Callable => 8,
            HighlightModifier::Static => 9,
            HighlightModifier::Associated => 10,
        }
    }

    /// The modifier's flag: the single bit at `index`.
    pub open spec fn mask(self) -> u32 {
        match self {
            HighlightModifier::Attribute => 0x001,
            HighlightModifier::ControlFlow => 0x002,
            HighlightModifier::Definition => 0x004,
            HighlightModifier::Documentation => 0x008,
            HighlightModifier::Injected => 0x010,
            HighlightModifier::Mutable => 0x020,
            HighlightModifier::Consuming => 0x040,
            HighlightModifier::Unsafe => 0x080,
            HighlightModifier::Callable => 0x100,
            HighlightModifier::Static => 0x200,
            HighlightModifier::Associated => 0x400,
        }
    }

    pub fn bit(self) -> (m: u32)
        ensures
            m == self.mask(),
    {
        match self {
            HighlightModifier::Attribute => 0x001,
            HighlightModifier::ControlFlow => 0x002,
            HighlightModifier::Definition => 0x004,
            HighlightModifier::Documentation => 0x008,
            HighlightModifier::Injected => 0x010,
            HighlightModifier::Mutable => 0x020,
            HighlightModifier::Consuming => 0x040,
            HighlightModifier::Unsafe => 0x080,
            HighlightModifier::Callable => 0x100,
            HighlightModifier::Static => 0x200,
            HighlightModifier::Associated => 0x400,
        }
    }

    /// Each flag is the bit at the modifier's index.
    pub proof fn lemma_mask_is_bit(self)
        ensures
            self.index() < 32,
            self.mask() == 1u32 << self.index(),
    {
        assert(1u32 << 0u32 == 0x001) by (bit_vector);
        assert(1u32 << 1u32 == 0x002) by (bit_vector);
        assert(1u32 << 2u32 == 0x004) by (bit_vector);
        assert(1u32 << 3u32 == 0x008) by (bit_vector);
        assert(1u32 << 4u32 == 0x010) by (bit_vector);
        assert(1u32 << 5u32 == 0x020) by (bit_vector);
        assert(1u32 << 6u32 == 0x040) by (bit_vector);
        assert(1u32 << 7u32 == 0x080) by (bit_vector);
        assert(1u32 << 8u32 == 0x100) by (bit_vector);
        assert(1u32 << 9u32 == 0x200) by (bit_vector);
        assert(1u32 << 10u32 == 0x400) by (bit_vector);
    }
}

proof fn lemma_or_bit(x: u32, i: u32, j: u32)
    by (bit_vector)
    requires
        i < 32,
        j < 32,
    ensures
        ((x | (1u32 << i)) & (1u32 << j) != 0) == ((x & (1u32 << j) != 0) || i == j),
{
}

proof fn lemma_zero_bit(j: u32)
    by (bit_vector)
    ensures
        0u32 & (1u32 << j) == 0,
{
}

proof fn lemma_or_bits(x: u32, y: u32, j: u32)
    by (bit_vector)
    ensures
        ((x | y) & (1u32 << j) != 0) == ((x & (1u32 << j) != 0) || (y & (1u32 << j) != 0)),
{
}

/// A set of modifiers, held as bit flags.
#[derive(Clone, Copy, Debug, PartialEq, Eq, Hash, Structural)]
pub struct HighlightModifiers {
    bits: u32,
}

impl View for HighlightModifiers {
    type V = Set<HighlightModifier>;

    /// The modifiers whose flags are set.
    closed spec fn view(&self) -> Set<HighlightModifier> {
        Set::new(|m: HighlightModifier| self.bits & m.mask() != 0)
    }
}

impl HighlightModifiers {
    /// The set without any modifier.
    pub closed spec fn none() -> HighlightModifiers {
        HighlightModifiers { bits: 0 }
    }

    /// The set with `m` added.
    pub closed spec fn plus(self, m: HighlightModifier) -> HighlightModifiers {
        HighlightModifiers { bits: self.bits | m.mask() }
    }

    /// The union of two sets.
    pub closed spec fn join(self, other: HighlightModifiers) -> HighlightModifiers {
        HighlightModifiers { bits: self.bits | other.bits }
    }

    /// `none()` holds no modifier.
    pub broadcast proof fn lemma_none(m: HighlightModifier)
        ensures
            !(#[trigger] Self::none()@.contains(m)),
    {
        m.lemma_mask_is_bit();
        lemma_zero_bit(m.index());
    }

    /// `plus` adds its argument and nothing else.
    pub broadcast proof fn lemma_plus(self, a: HighlightModifier, m: HighlightModifier)
        ensures
            #[trigger] self.plus(a)@.contains(m) == (self@.contains(m) || a == m),
    {
        a.lemma_mask_is_bit();
        m.lemma_mask_is_bit();
        lemma_or_bit(self.bits, a.index(), m.index());
    }

    /// `join` holds what either set holds.
    pub broadcast proof fn lemma_join(self, other: HighlightModifiers, m: HighlightModifier)
        ensures
            #[trigger] self.join(other)@.contains(m) == (self@.contains(m) || other@.contains(m)),
    {
        m.lemma_mask_is_bit();
        lemma_or_bits(self.bits, other.bits, m.index());
    }

    pub fn new() -> (r: HighlightModifiers)
        ensures
            r == Self::none(),
            r@ == Set::<HighlightModifier>::empty(),
    {
        let r = HighlightModifiers { bits: 0 };
        proof {
            assert forall|m: HighlightModifier| !r@.contains(m) by {
                Self::lemma_none(m);
            }
            assert(r@ =~= Set::<HighlightModifier>::empty());
        }
        r
    }

    /// Adds `m` to the set.
    pub fn insert(&mut self, m: HighlightModifier)
        ensures
            *final(self) == old(self).plus(m),
            final(self)@ == old(self)@.insert(m),
    {
        let ghost before = *self;
        self.bits = self.bits | m.bit();
        proof {
            assert forall|x: HighlightModifier| self@.contains(x) == before@.insert(m).contains(
                x,
            ) by {
                before.lemma_plus(m, x);
            }
            assert(self@ =~= before@.insert(m));
        }
    }

    /// The union of the two sets.
    pub fn union(self, other: HighlightModifiers) -> (r: HighlightModifiers)
        ensures
            r == self.join(other),
            r@ == self@.union(other@),
    {
        let r = HighlightModifiers { bits: self.bits | other.bits };
        proof {
            assert forall|x: HighlightModifier| r@.contains(x) == self@.union(other@).contains(
                x,
            ) by {
                self.lemma_join(other, x);
            }
            assert(r@ =~= self@.union(other@));
        }
        r
    }

    pub fn contains(&self, m: HighlightModifier) -> (b: bool)
        ensures
            b == self@.contains(m),
    {
        self.bits & m.bit() != 0
    }
}

/// A tag together with a set of modifiers.
#[derive(Clone, Copy, Debug, PartialEq, Eq, Hash, Structural)]
pub struct Highlight {
    pub tag: HighlightTag,
    pub modifiers: HighlightModifiers,
}

impl Highlight {
    /// The highlight of `tag` without modifiers.
    pub open spec fn plain(tag: HighlightTag) -> Highlight {
        Highlight { tag, modifiers: HighlightModifiers::none() }
    }

    /// This highlight with the modifier `m` added.
    pub open spec fn plus(self, m: HighlightModifier) -> Highlight {
        Highlight { tag: self.tag, modifiers: self.modifiers.plus(m) }
    }

    /// This highlight with `m` added where `cond` holds, unchanged where not.
    pub open spec fn plus_if(self, cond: bool, m: HighlightModifier) -> Highlight {
        if cond {
            self.plus(m)
        } else {
            self
        }
    }

    /// Whether the highlight carries the modifier `m`.
    pub open spec fn has(self, m: HighlightModifier) -> bool {
        self.modifiers@.contains(m)
    }

    pub fn new(tag: HighlightTag) -> (h: Highlight)
        ensures
            h == Self::plain(tag),
            h.modifiers@ == Set::<HighlightModifier>::empty(),
    {
        Highlight { tag, modifiers: HighlightModifiers::new() }
    }

    /// This highlight with the modifier `m` added.
    pub fn with(self, m: HighlightModifier) -> (h: Highlight)
        ensures
            h == self.plus(m),
            h.tag == self.tag,
            h.modifiers@ == self.modifiers@.insert(m),
    {
        let mut modifiers = self.modifiers;
        modifiers.insert(m);
        Highlight { tag: self.tag, modifiers }
    }

    /// This highlight with `m` added where `cond` holds.
    pub fn with_if(self, cond: bool, m: HighlightModifier) -> (h: Highlight)
        ensures
            h == self.plus_if(cond, m),
            h.tag == self.tag,
            h.modifiers@ == if cond {
                self.modifiers@.insert(m)
            } else {
                self.modifiers@
            },
    {
        if cond {
            self.with(m)
        } else {
            self
        }
    }
}

impl Highlight {
    /// A highlight without modifiers carries none.
    pub proof fn lemma_plain(tag: HighlightTag, m: HighlightModifier)
        ensures
            Self::plain(tag).tag == tag,
            !Self::plain(tag).has(m),
    {
        HighlightModifiers::lemma_none(m);
    }

    /// `plus_if` adds its modifier where the condition holds, and changes
    /// nothing else: not the tag, and no other modifier.
    pub proof fn lemma_plus_if(self, cond: bool, a: HighlightModifier, m: HighlightModifier)
        ensures
            self.plus_if(cond, a).tag == self.tag,
            self.plus(a).tag == self.tag,
            self.plus_if(cond, a).has(m) == (self.has(m) || (cond && a == m)),
            self.plus(a).has(m) == (self.has(m) || a == m),
    {
        self.modifiers.lemma_plus(a, m);
    }
}

} // verus!
