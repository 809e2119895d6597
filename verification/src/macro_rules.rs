//! The highlighter for the bodies of macro definitions: it follows the
//! tokens of a definition to know where a rule's matcher and expander are,
//! and finds the metavariables in them.

use crate::element::Element;
use crate::range_stack::HighlightedRange;
use crate::syntax_kind::SyntaxKind;
use crate::tags::{Highlight, HighlightTag};
use crate::text_range::TextRange;
use vstd::prelude::*;

verus! {

/// Where in a rule of a macro definition a token stands.
#[derive(Clone, Copy, Debug, PartialEq, Eq, Structural)]
pub enum RuleState {
    /// In the matcher of a rule.
    Matcher,
    /// In the expander of a rule.
    Expander,
    /// Between the matcher and the expander.
    Between,
    /// Before the first rule, or behind a rule.
    Outside,
}

impl RuleState {
    /// The state that follows when a bracketed group opens or closes.
    pub open spec fn next(self) -> RuleState {
        match self {
            RuleState::Matcher => RuleState::Between,
            RuleState::Expander => RuleState::Outside,
            RuleState::Between => RuleState::Expander,
            RuleState::Outside => RuleState::Matcher,
        }
    }

    pub fn transition(&mut self)
        ensures
            *final(self) == old(self).next(),
    {
        *self = match *self {
            RuleState::Matcher => RuleState::Between,
            RuleState::Expander => RuleState::Outside,
            RuleState::Between => RuleState::Expander,
            RuleState::Outside => RuleState::Matcher,
        };
    }
}

/// What is known after the tokens of a macro definition read so far.
#[derive(Clone, Copy, Debug, PartialEq, Eq)]
pub struct MacroMatcherParseState {
    /// The opening and the closing bracket of the matcher or expander at
    /// hand.
    pub paren_ty: Option<(SyntaxKind, SyntaxKind)>,
    /// How many of these brackets are open.
    pub paren_level: usize,
    pub rule_state: RuleState,
    /// Whether the brace that holds the rules has been passed.
    pub in_invoc_body: bool,
}

/// The closing bracket that goes with `kind`, if `kind` opens a bracket.
pub open spec fn closing_of(kind: SyntaxKind) -> Option<SyntaxKind> {
    match kind {
        SyntaxKind::LParen => Some(SyntaxKind::RParen),
        SyntaxKind::LCurly => Some(SyntaxKind::RCurly),
        SyntaxKind::LBrack => Some(SyntaxKind::RBrack),
        _ => None,
    }
}

impl MacroMatcherParseState {
    /// The state before the first token of a macro definition.
    pub open spec fn initial() -> MacroMatcherParseState {
        MacroMatcherParseState {
            paren_ty: None,
            paren_level: 0,
            rule_state: RuleState::Outside,
            in_invoc_body: false,
        }
    }

    /// The validity of a state: while a bracket is followed, at least one
    /// is open.
    pub open spec fn wf(self) -> bool {
        self.paren_ty is Some ==> self.paren_level >= 1
    }

    /// Whether a token of kind `kind` can be taken in: the count of open
    /// brackets does not run over.
    pub open spec fn takes(self, kind: SyntaxKind) -> bool {
        match self.paren_ty {
            Some((open, _)) => self.in_invoc_body && kind == open ==> self.paren_level
                < usize::MAX,
            None => true,
        }
    }

    /// The state after a token of kind `kind`.
    ///
    /// Nothing counts before the brace that holds the rules. From then on,
    /// the first bracket that opens starts the matcher of a rule, or the
    /// expander if the matcher is done; brackets of the same kind inside it
    /// are counted; and the bracket that closes it ends it.
    pub open spec fn advanced(self, kind: SyntaxKind) -> MacroMatcherParseState {
        if !self.in_invoc_body {
            MacroMatcherParseState { in_invoc_body: kind == SyntaxKind::LCurly, ..self }
        } else {
            match self.paren_ty {
                Some((open, close)) => if kind == open {
                    MacroMatcherParseState {
                        paren_level: (self.paren_level + 1) as usize,
                        ..self
                    }
                } else if kind == close {
                    if self.paren_level == 1 {
                        MacroMatcherParseState {
                            paren_ty: None,
                            paren_level: 0,
                            rule_state: self.rule_state.next(),
                            ..self
                        }
                    } else {
                        MacroMatcherParseState {
                            paren_level: (self.paren_level - 1) as usize,
                            ..self
                        }
                    }
                } else {
                    self
                },
                None => match closing_of(kind) {
                    Some(close) => MacroMatcherParseState {
                        paren_ty: Some((kind, close)),
                        paren_level: 1,
                        rule_state: self.rule_state.next(),
                        ..self
                    },
                    None => self,
                },
            }
        }
    }

    pub fn new() -> (state: MacroMatcherParseState)
        ensures
            state == Self::initial(),
            state.wf(),
    {
        MacroMatcherParseState {
            paren_ty: None,
            paren_level: 0,
            rule_state: RuleState::Outside,
            in_invoc_body: false,
        }
    }
}

/// Takes in a token of kind `kind`.
pub fn update_macro_rules_state(state: &mut MacroMatcherParseState, kind: SyntaxKind)
    requires
        old(state).wf(),
        old(state).takes(kind),
    ensures
        *final(state) == old(state).advanced(kind),
        final(state).wf(),
{
    if !state.in_invoc_body {
        if kind == SyntaxKind::LCurly {
            state.in_invoc_body = true;
        }
        return ;
    }
    match state.paren_ty {
        Some((open, close)) => {
            if kind == open {
                state.paren_level += 1;
            } else if kind == close {
                state.paren_level -= 1;
                if state.paren_level == 0 {
                    state.rule_state.transition();
                    state.paren_ty = None;
                }
            }
        },
        None => {
            match kind {
                SyntaxKind::LParen => {
                    state.paren_ty = Some((SyntaxKind::LParen, SyntaxKind::RParen));
                },
                SyntaxKind::LCurly => {
                    state.paren_ty = Some((SyntaxKind::LCurly, SyntaxKind::RCurly));
                },
                SyntaxKind::LBrack => {
                    state.paren_ty = Some((SyntaxKind::LBrack, SyntaxKind::RBrack));
                },
                _ => (),
            }
            if state.paren_ty.is_some() {
                state.paren_level = 1;
                state.rule_state.transition();
            }
        },
    }
}

/// Whether the element is the name of a metavariable: an identifier or a
/// keyword that follows a dollar sign.
pub open spec fn metavariable(element: Element) -> bool {
    &&& element.is_token
    &&& element.kind == SyntaxKind::Ident || element.kind.keyword()
    &&& element.facts.prev_token == Some(SyntaxKind::Dollar)
}

/// The place of the element, if it is the name of a metavariable.
pub fn is_metavariable(element: &Element) -> (range: Option<TextRange>)
    ensures
        range == if metavariable(*element) {
            Some(element.range)
        } else {
            None
        },
{
    if !element.is_token {
        return None;
    }
    if element.kind == SyntaxKind::Ident || element.kind.is_keyword() {
        match element.facts.prev_token {
            Some(SyntaxKind::Dollar) => return Some(element.range),
            _ => (),
        }
    }
    None
}

/// Whether the element is the name of a metavariable in the matcher or the
/// expander of a rule; `state` is none outside of macro definitions.
pub open spec fn in_rule_metavariable(state: Option<MacroMatcherParseState>, element: Element) -> bool {
    match state {
        Some(state) => (state.rule_state == RuleState::Matcher || state.rule_state
            == RuleState::Expander) && metavariable(element),
        None => false,
    }
}

/// The highlighter for the body of a macro definition.
#[derive(Clone, Copy, Debug)]
pub struct MacroRulesHighlighter {
    state: Option<MacroMatcherParseState>,
}

impl View for MacroRulesHighlighter {
    type V = Option<MacroMatcherParseState>;

    closed spec fn view(&self) -> Option<MacroMatcherParseState> {
        self.state
    }
}

impl MacroRulesHighlighter {
    pub open spec fn wf(&self) -> bool {
        self@ matches Some(state) ==> state.wf()
    }

    /// The highlighter outside of any macro definition.
    pub fn new() -> (highlighter: MacroRulesHighlighter)
        ensures
            highlighter@ is None,
            highlighter.wf(),
    {
        MacroRulesHighlighter { state: None }
    }

    /// Starts over, at the start of a macro definition.
    pub fn init(&mut self)
        ensures
            final(self)@ == Some(MacroMatcherParseState::initial()),
            final(self).wf(),
    {
        self.state = Some(MacroMatcherParseState::new());
    }

    /// Takes in a token of kind `kind`, if a macro definition is at hand.
    pub fn advance(&mut self, kind: SyntaxKind)
        requires
            old(self).wf(),
            old(self)@ matches Some(state) ==> state.takes(kind),
        ensures
            final(self)@ == match old(self)@ {
                Some(state) => Some(state.advanced(kind)),
                None => None,
            },
            final(self).wf(),
    {
        match self.state {
            Some(mut state) => {
                update_macro_rules_state(&mut state, kind);
                self.state = Some(state);
            },
            None => (),
        }
    }

    /// Whether a token of kind `kind` can be taken in.
    pub fn can_advance(&self, kind: SyntaxKind) -> (b: bool)
        ensures
            b == (self@ matches Some(state) ==> state.takes(kind)),
    {
        match self.state {
            Some(state) => match state.paren_ty {
                Some((open, _)) => !(state.in_invoc_body && kind == open) || state.paren_level
                    < usize::MAX,
                None => true,
            },
            None => true,
        }
    }

    /// The highlighted range of the element, if it is the name of a
    /// metavariable in the matcher or the expander of a rule.
    pub fn highlight(&self, element: &Element) -> (range: Option<HighlightedRange>)
        ensures
            range == if in_rule_metavariable(self@, *element) {
                Some(
                    HighlightedRange {
                        range: element.range,
                        highlight: Highlight::plain(HighlightTag::UnresolvedReference),
                        binding_hash: None,
                    },
                )
            } else {
                None
            },
    {
        if let Some(state) = self.state {
            let in_rule = match state.rule_state {
                RuleState::Matcher | RuleState::Expander => true,
                _ => false,
            };
            if in_rule {
                if let Some(range) = is_metavariable(element) {
                    return Some(
                        HighlightedRange {
                            range,
                            highlight: Highlight::new(HighlightTag::UnresolvedReference),
                            binding_hash: None,
                        },
                    );
                }
            }
        }
        None
    }
}

/// A token that can be taken in leaves a valid state, with one bracket more
/// open at most.
pub proof fn lemma_advanced(state: MacroMatcherParseState, kind: SyntaxKind)
    requires
        state.wf(),
        state.takes(kind),
    ensures
        state.advanced(kind).wf(),
        state.advanced(kind).paren_level <= state.paren_level + 1,
{
}

} // verus!
