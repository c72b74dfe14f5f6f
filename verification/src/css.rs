//! Style sheets: rules made of selectors and declarations, and the test
//! whether a rule applies to a node.
pub mod parser;

pub use parser::parse;

use crate::dict::Content;
use crate::dom::{has_tag, views, Node, NodeType, NodeTypeView};
use vstd::prelude::*;

verus! {

/// An ordered list of rules. Later rules override earlier ones.
#[derive(Debug, PartialEq)]
pub struct Stylesheet {
    pub rules: Vec<Rule>,
}

/// One property set to one value.
#[derive(Debug, PartialEq)]
pub struct Declaration {
    pub name: String,
    pub value: CSSValue,
}

/// The value of a property. Only bare keywords exist.
#[derive(Debug, PartialEq)]
pub enum CSSValue {
    Keyword(String),
}

/// Selectors, any of which makes the rule apply, and the declarations that
/// then take effect.
#[derive(Debug, PartialEq)]
pub struct Rule {
    pub selectors: Vec<Selector>,
    pub declarations: Vec<Declaration>,
}

/// The only selectors are the simple ones.
pub type Selector = SimpleSelector;

/// A selector without combinators.
#[derive(Debug, PartialEq)]
pub enum SimpleSelector {
    UniversalSelector,
    TypeSelector { tag_name: String },
    AttributeSelector { tag_name: String, op: AttributeSelectorOp, attribute: String, value: String },
    ClassSelector { class_name: String },
}

/// How an attribute selector compares the attribute with its value.
#[derive(Debug, PartialEq, Eq, Structural, Clone, Copy)]
pub enum AttributeSelectorOp {
    Eq,
    Contain,
}

/// The mathematical value of a [`CSSValue`].
pub enum ValueView {
    Keyword(Seq<char>),
}

/// The mathematical value of a [`Declaration`].
pub struct DeclarationView {
    pub name: Seq<char>,
    pub value: ValueView,
}

/// The mathematical value of a [`SimpleSelector`].
pub enum SelectorView {
    Universal,
    Type { tag_name: Seq<char> },
    Attribute { tag_name: Seq<char>, op: AttributeSelectorOp, attribute: Seq<char>, value: Seq<char> },
    Class { class_name: Seq<char> },
}

/// The mathematical value of a [`Rule`].
pub struct RuleView {
    pub selectors: Seq<SelectorView>,
    pub declarations: Seq<DeclarationView>,
}

impl View for CSSValue {
    type V = ValueView;

    open spec fn view(&self) -> ValueView {
        match self {
            CSSValue::Keyword(k) => ValueView::Keyword(k@),
        }
    }
}

impl View for Declaration {
    type V = DeclarationView;

    open spec fn view(&self) -> DeclarationView {
        DeclarationView { name: self.name@, value: self.value@ }
    }
}

impl View for SimpleSelector {
    type V = SelectorView;

    open spec fn view(&self) -> SelectorView {
        match self {
            SimpleSelector::UniversalSelector => SelectorView::Universal,
            SimpleSelector::TypeSelector { tag_name } => SelectorView::Type { tag_name: tag_name@ },
            SimpleSelector::AttributeSelector { tag_name, op, attribute, value } => {
                SelectorView::Attribute {
                    tag_name: tag_name@,
                    op: *op,
                    attribute: attribute@,
                    value: value@,
                }
            },
            SimpleSelector::ClassSelector { class_name } => SelectorView::Class {
                class_name: class_name@,
            },
        }
    }
}

impl View for Rule {
    type V = RuleView;

    open spec fn view(&self) -> RuleView {
        RuleView { selectors: views(self.selectors@), declarations: views(self.declarations@) }
    }
}

impl View for Stylesheet {
    type V = Seq<RuleView>;

    open spec fn view(&self) -> Seq<RuleView> {
        views(self.rules@)
    }
}

impl Clone for CSSValue {
    fn clone(&self) -> (r: Self)
        ensures
            r@ == self@,
    {
        match self {
            CSSValue::Keyword(k) => CSSValue::Keyword(k.clone()),
        }
    }
}

impl Content for CSSValue {
    fn same(&self, other: &Self) -> (b: bool) {
        match (self, other) {
            (CSSValue::Keyword(a), CSSValue::Keyword(b)) => *a == *b,
        }
    }
}

/// Whether a selector applies to a node of kind `n`.
///
/// The universal selector applies to every node. A type selector applies to
/// the elements with its tag name. An attribute selector applies to the
/// elements with its tag name as well: the attribute, the operator and the
/// value are kept but take no part in the test. A class selector applies to
/// no node.
pub open spec fn selector_matches(s: SelectorView, n: NodeTypeView) -> bool {
    match s {
        SelectorView::Universal => true,
        SelectorView::Type { tag_name } => has_tag(n, tag_name),
        SelectorView::Attribute { tag_name, .. } => has_tag(n, tag_name),
        SelectorView::Class { .. } => false,
    }
}

/// Whether one of the selectors `s` applies to a node of kind `n`.
pub open spec fn any_selector_matches(s: Seq<SelectorView>, n: NodeTypeView) -> bool {
    exists|i: int| 0 <= i < s.len() && selector_matches(#[trigger] s[i], n)
}

/// Whether a rule applies to a node of kind `n`: one of its selectors does.
pub open spec fn rule_matches(r: RuleView, n: NodeTypeView) -> bool {
    any_selector_matches(r.selectors, n)
}

impl Stylesheet {
    /// The style sheet made of `rules`, in their order.
    pub fn new(rules: Vec<Rule>) -> (sheet: Self)
        ensures
            sheet.rules == rules,
            sheet@ == views(rules@),
    {
        Stylesheet { rules }
    }
}

impl SimpleSelector {
    /// Whether the selector applies to node `n`.
    pub fn matches(&self, n: &Box<Node>) -> (b: bool)
        ensures
            b == selector_matches(self@, n@.node_type),
    {
        self.matches_type(&n.node_type)
    }

    /// Whether the selector applies to a node of kind `node_type`.
    pub fn matches_type(&self, node_type: &NodeType) -> (b: bool)
        ensures
            b == selector_matches(self@, node_type@),
    {
        match self {
            SimpleSelector::UniversalSelector => true,
            SimpleSelector::TypeSelector { tag_name } => node_type.is_tagged(tag_name.as_str()),
            SimpleSelector::AttributeSelector { tag_name, .. } => node_type.is_tagged(tag_name.as_str()),
            SimpleSelector::ClassSelector { .. } => false,
        }
    }
}

impl Rule {
    /// Whether the rule applies to node `n`.
    pub fn matches(&self, n: &Box<Node>) -> (b: bool)
        ensures
            b == rule_matches(self@, n@.node_type),
    {
        self.matches_type(&n.node_type)
    }

    /// Whether the rule applies to a node of kind `node_type`.
    pub fn matches_type(&self, node_type: &NodeType) -> (b: bool)
        ensures
            b == rule_matches(self@, node_type@),
    {
        let mut i: usize = 0;
        while i < self.selectors.len()
            invariant
                i <= self.selectors@.len(),
                forall|j: int| 0 <= j < i ==> !selector_matches(#[trigger] self@.selectors[j], node_type@),
            decreases self.selectors@.len() - i,
        {
            if self.selectors[i].matches_type(node_type) {
                assert(selector_matches(self@.selectors[i as int], node_type@));
                return true;
            }
            i += 1;
        }
        false
    }
}

/// A rule with several selectors applies as soon as one of them does.
pub proof fn lemma_one_selector_suffices(r: RuleView, n: NodeTypeView, i: int)
    requires
        0 <= i < r.selectors.len(),
        selector_matches(r.selectors[i], n),
    ensures
        rule_matches(r, n),
{
}

} // verus!
