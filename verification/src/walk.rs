//! The walk of a syntax tree as the highlighter takes it in: one event for
//! entering and one for leaving each token and node, in the order of a
//! depth-first walk, with what is known of the element at that place.

use crate::element::Element;
use crate::range_stack::{all_wf, is_all_wf, HighlightedRange};
use crate::syntax_kind::SyntaxKind;
use crate::text_range::TextRange;
use vstd::prelude::*;

verus! {

/// Where a token among the arguments of a macro call leads in the expansion
/// of the call.
#[derive(Clone, Debug, PartialEq, Eq)]
pub struct Descent {
    /// The token of the expansion that stems from the source token.
    pub token: Element,
    /// The node of the expansion that holds that token.
    pub parent: Element,
}

/// A token or node next to the path of a macro call.
#[derive(Clone, Copy, Debug, PartialEq, Eq, Structural)]
pub struct Sibling {
    pub kind: SyntaxKind,
    pub range: TextRange,
}

/// The parts of a macro call that make up its name.
#[derive(Clone, Debug, PartialEq, Eq)]
pub struct MacroCallShape {
    /// The place of the name in the last segment of the call's path.
    pub name_ref: TextRange,
    /// The path and what follows it in the call, in order.
    pub path_siblings: Vec<Sibling>,
}

/// The code blocks in the documentation comments of a node, highlighted.
#[derive(Clone, Debug, PartialEq, Eq)]
pub struct DocInjection {
    /// The highlighted ranges of the code, placed in the source text.
    pub code: Vec<HighlightedRange>,
    /// The ranges of the comment markers in front of the lines of code.
    pub comments: Vec<HighlightedRange>,
}

/// An element of the source tree at one step of the walk.
#[derive(Clone, Debug, PartialEq, Eq)]
pub struct SourceElement {
    pub element: Element,
    /// Of a macro call: the parts that make up its name, if it has one.
    pub macro_call: Option<MacroCallShape>,
    /// Of a token among the arguments of a macro call: where it leads in the
    /// expansion, if it leads anywhere.
    pub descent: Option<Descent>,
    /// Of a raw string literal that holds code: the highlighted ranges of
    /// that code, with the quotes, placed in the source text.
    pub injection: Option<Vec<HighlightedRange>>,
    /// Of a node whose documentation comments hold code.
    pub doc_injection: Option<DocInjection>,
}

/// One step of the walk.
#[derive(Clone, Debug, PartialEq, Eq)]
pub enum WalkEvent {
    Enter(SourceElement),
    Leave(SourceElement),
}

impl SourceElement {
    /// The validity of an element: the ranges in it are well formed.
    pub open spec fn wf(&self) -> bool {
        &&& self.element.range.wf()
        &&& self.injection matches Some(ranges) ==> all_wf(ranges@)
        &&& self.doc_injection matches Some(docs) ==> all_wf(docs.code@) && all_wf(docs.comments@)
    }

    /// An element of which nothing but `element` is known.
    pub fn new(element: Element) -> (item: SourceElement)
        ensures
            item.element == element,
            item.macro_call is None,
            item.descent is None,
            item.injection is None,
            item.doc_injection is None,
    {
        SourceElement {
            element,
            macro_call: None,
            descent: None,
            injection: None,
            doc_injection: None,
        }
    }
}

impl WalkEvent {
    /// The element that is entered or left.
    pub open spec fn item(&self) -> SourceElement {
        match *self {
            WalkEvent::Enter(item) => item,
            WalkEvent::Leave(item) => item,
        }
    }

    pub open spec fn wf(&self) -> bool {
        self.item().wf()
    }
}

/// The end of the last of `siblings` that is a `!` or an identifier, and
/// `end` where none is.
pub open spec fn name_end(siblings: Seq<Sibling>, end: u32) -> u32
    decreases siblings.len(),
{
    if siblings.len() == 0 {
        end
    } else if siblings.last().kind == SyntaxKind::Bang || siblings.last().kind
        == SyntaxKind::Ident {
        siblings.last().range.end
    } else {
        name_end(siblings.drop_last(), end)
    }
}

/// The range of a macro call that is highlighted as the macro: from the
/// start of its name to the end of the `!`, or of the identifier that
/// follows the `!`.
pub open spec fn call_range(call: MacroCallShape) -> TextRange {
    TextRange { start: call.name_ref.start, end: name_end(call.path_siblings@, call.name_ref.end) }
}

/// The end of the last of the call's siblings that is a `!` or an
/// identifier, and the end of its name where none is.
fn name_end_of(call: &MacroCallShape) -> (end: u32)
    ensures
        end == name_end(call.path_siblings@, call.name_ref.end),
{
    let mut range_end = call.name_ref.end();
    let mut i: usize = 0;
    assert(call.path_siblings@.take(0) =~= Seq::<Sibling>::empty());
    while i < call.path_siblings.len()
        invariant
            0 <= i <= call.path_siblings@.len(),
            range_end == name_end(call.path_siblings@.take(i as int), call.name_ref.end),
        decreases call.path_siblings@.len() - i,
    {
        let sibling = call.path_siblings[i];
        proof {
            let grown = call.path_siblings@.take(i + 1);
            assert(grown.last() == sibling);
            assert(grown.drop_last() =~= call.path_siblings@.take(i as int));
        }
        match sibling.kind {
            SyntaxKind::Bang | SyntaxKind::Ident => range_end = sibling.range.end(),
            _ => (),
        }
        i += 1;
    }
    assert(call.path_siblings@.take(i as int) =~= call.path_siblings@);
    range_end
}

/// The range of a macro call that is highlighted as the macro, if the call
/// has a name.
pub fn macro_call_range(macro_call: &Option<MacroCallShape>) -> (range: Option<TextRange>)
    requires
        *macro_call matches Some(call) ==> call_range(call).wf(),
    ensures
        range == match *macro_call {
            Some(call) => Some(call_range(call)),
            None => None,
        },
{
    try_macro_call_range(macro_call).unwrap()
}

/// The range of a macro call that is highlighted as the macro, if the call
/// has a name; the outer result is none where the name ends before it
/// starts, so that there is no such range.
pub fn try_macro_call_range(macro_call: &Option<MacroCallShape>) -> (range: Option<
    Option<TextRange>,
>)
    ensures
        range is Some == (*macro_call matches Some(call) ==> call_range(call).wf()),
        range matches Some(found) ==> found == match *macro_call {
            Some(call) => Some(call_range(call)),
            None => None,
        },
{
    match macro_call {
        Some(call) => {
            let end = name_end_of(call);
            if call.name_ref.start() <= end {
                Some(Some(TextRange::new(call.name_ref.start(), end)))
            } else {
                None
            }
        },
        None => Some(None),
    }
}

impl SourceElement {
    /// Whether the ranges in the element are well formed.
    pub fn is_wf(&self) -> (b: bool)
        ensures
            b == self.wf(),
    {
        if self.element.range.start() > self.element.range.end() {
            return false;
        }
        if let Some(ranges) = &self.injection {
            if !is_all_wf(ranges) {
                return false;
            }
        }
        if let Some(docs) = &self.doc_injection {
            if !is_all_wf(&docs.code) || !is_all_wf(&docs.comments) {
                return false;
            }
        }
        true
    }
}

} // verus!
