//! Style resolution: which declarations of a style sheet reach each node.
use crate::css::{rule_matches, CSSValue, DeclarationView, Rule, RuleView, Stylesheet, ValueView};
use crate::dict::Dict;
use crate::dom::{Node, NodeType, NodeTypeView, NodeView};
use vstd::prelude::*;

verus! {

/// The resolved properties of a node: a map from property names to values.
pub type PropertyMap = Dict<CSSValue>;

/// A node together with its resolved properties.
#[derive(Debug, PartialEq)]
pub struct StyledNode<'a> {
    pub node_type: &'a NodeType,
    pub children: Vec<StyledNode<'a>>,
    pub properties: PropertyMap,
}

/// The mathematical value of a [`StyledNode`].
pub struct StyledNodeView {
    pub node_type: NodeTypeView,
    pub children: Seq<StyledNodeView>,
    pub properties: Map<Seq<char>, ValueView>,
}

impl<'a> StyledNode<'a> {
    /// The mathematical value of the styled node: its kind, its properties
    /// and the values of its children, in order.
    pub open spec fn model(&self) -> StyledNodeView
        decreases self,
    {
        StyledNodeView {
            node_type: self.node_type@,
            children: Seq::new(
                self.children@.len(),
                |i: int|
                    if 0 <= i < self.children@.len() {
                        self.children@[i].model()
                    } else {
                        arbitrary()
                    },
            ),
            properties: self.properties@,
        }
    }
}

impl<'a> View for StyledNode<'a> {
    type V = StyledNodeView;

    open spec fn view(&self) -> StyledNodeView {
        self.model()
    }
}

/// The properties `m` after the first `n` of the declarations `decls` were
/// written over them, one after the other.
pub open spec fn declare(
    m: Map<Seq<char>, ValueView>,
    decls: Seq<DeclarationView>,
    n: nat,
) -> Map<Seq<char>, ValueView>
    decreases n,
{
    if n == 0 {
        m
    } else {
        declare(m, decls, (n - 1) as nat).insert(decls[n - 1].name, decls[n - 1].value)
    }
}

/// The properties that the first `n` rules of `rules` give to a node of
/// kind `node`: the declarations of each rule that applies to it are
/// written, in the rules' order, over an empty map.
pub open spec fn cascade(rules: Seq<RuleView>, node: NodeTypeView, n: nat) -> Map<
    Seq<char>,
    ValueView,
>
    decreases n,
{
    if n == 0 {
        Map::empty()
    } else {
        let before = cascade(rules, node, (n - 1) as nat);
        let rule = rules[n - 1];
        if rule_matches(rule, node) {
            declare(before, rule.declarations, rule.declarations.len())
        } else {
            before
        }
    }
}

/// The properties that a style sheet gives to a node of kind `node`.
pub open spec fn resolve(rules: Seq<RuleView>, node: NodeTypeView) -> Map<Seq<char>, ValueView> {
    cascade(rules, node, rules.len())
}

/// The styled tree of `node` under the style sheet `rules`: every node
/// with the properties that the sheet gives it, children in document order.
pub open spec fn styled(node: NodeView, rules: Seq<RuleView>) -> StyledNodeView
    decreases node,
{
    StyledNodeView {
        node_type: node.node_type,
        children: Seq::new(
            node.children.len(),
            |i: int|
                if 0 <= i < node.children.len() {
                    styled(node.children[i], rules)
                } else {
                    arbitrary()
                },
        ),
        properties: resolve(rules, node.node_type),
    }
}

/// Whether one of the first `n` declarations of `decls` sets `name`.
pub open spec fn declares(decls: Seq<DeclarationView>, n: nat, name: Seq<char>) -> bool {
    exists|i: int| 0 <= i < n && i < decls.len() && (#[trigger] decls[i]).name == name
}

/// The value that the declarations `decls`, written in their order, leave
/// under `name`.
pub open spec fn declared_value(decls: Seq<DeclarationView>, name: Seq<char>) -> ValueView {
    declare(Map::empty(), decls, decls.len())[name]
}

/// Declarations that do not set `name` leave what was under it; those that
/// set it leave a value that does not depend on what was there before.
pub proof fn lemma_declare(
    m: Map<Seq<char>, ValueView>,
    decls: Seq<DeclarationView>,
    n: nat,
    name: Seq<char>,
)
    requires
        n <= decls.len(),
    ensures
        !declares(decls, n, name) ==> (declare(m, decls, n).contains_key(name) <==> m.contains_key(
            name,
        )) && declare(m, decls, n)[name] == m[name],
        declares(decls, n, name) ==> declare(m, decls, n).contains_key(name) && declare(
            m,
            decls,
            n,
        )[name] == declare(Map::empty(), decls, n)[name],
    decreases n,
{
    if n > 0 {
        let k = (n - 1) as nat;
        lemma_declare(m, decls, k, name);
        lemma_declare(Map::empty(), decls, k, name);
        if decls[n - 1].name == name {
            assert(declares(decls, n, name));
        } else if declares(decls, n, name) {
            let i = choose|i: int| 0 <= i < n && i < decls.len() && (#[trigger] decls[i]).name == name;
            assert(declares(decls, k, name));
        } else {
            assert(!declares(decls, k, name)) by {
                if declares(decls, k, name) {
                    let i = choose|i: int|
                        0 <= i < k && i < decls.len() && (#[trigger] decls[i]).name == name;
                    assert(decls[i].name == name);
                }
            }
        }
    }
}

/// Of the rules that apply to a node and set a property, the last one in
/// the style sheet decides the resolved value, whatever earlier rules say.
pub proof fn lemma_later_rule_wins(
    rules: Seq<RuleView>,
    node: NodeTypeView,
    j: int,
    name: Seq<char>,
)
    requires
        0 <= j < rules.len(),
        rule_matches(rules[j], node),
        declares(rules[j].declarations, rules[j].declarations.len(), name),
        forall|k: int|
            j < k < rules.len() && rule_matches(#[trigger] rules[k], node) ==> !declares(
                rules[k].declarations,
                rules[k].declarations.len(),
                name,
            ),
    ensures
        resolve(rules, node).contains_key(name),
        resolve(rules, node)[name] == declared_value(rules[j].declarations, name),
{
    lemma_cascade_after(rules, node, j, name, rules.len());
}

/// The statement of `lemma_later_rule_wins` for the first `n` rules.
proof fn lemma_cascade_after(
    rules: Seq<RuleView>,
    node: NodeTypeView,
    j: int,
    name: Seq<char>,
    n: nat,
)
    requires
        0 <= j < n <= rules.len(),
        rule_matches(rules[j], node),
        declares(rules[j].declarations, rules[j].declarations.len(), name),
        forall|k: int|
            j < k < rules.len() && rule_matches(#[trigger] rules[k], node) ==> !declares(
                rules[k].declarations,
                rules[k].declarations.len(),
                name,
            ),
    ensures
        cascade(rules, node, n).contains_key(name),
        cascade(rules, node, n)[name] == declared_value(rules[j].declarations, name),
    decreases n,
{
    let before = cascade(rules, node, (n - 1) as nat);
    let decls = rules[n - 1].declarations;
    lemma_declare(before, decls, decls.len(), name);
    if n - 1 > j {
        lemma_cascade_after(rules, node, j, name, (n - 1) as nat);
    }
}

/// Writes the declarations of `rule` over `properties`, in their order.
fn apply_rule(properties: &mut PropertyMap, rule: &Rule)
    ensures
        final(properties)@ == declare(old(properties)@, rule@.declarations, rule@.declarations.len()),
{
    let mut i: usize = 0;
    while i < rule.declarations.len()
        invariant
            i <= rule.declarations@.len(),
            rule@.declarations.len() == rule.declarations@.len(),
            properties@ == declare(old(properties)@, rule@.declarations, i as nat),
        decreases rule.declarations@.len() - i,
    {
        let declaration = &rule.declarations[i];
        assert(rule@.declarations[i as int] == declaration@);
        properties.insert(declaration.name.clone(), declaration.value.clone());
        i += 1;
    }
}

/// The properties that `stylesheet` gives to a node of kind `node_type`.
pub fn resolve_properties(node_type: &NodeType, stylesheet: &Stylesheet) -> (properties:
    PropertyMap)
    ensures
        properties@ == resolve(stylesheet@, node_type@),
{
    let mut properties: PropertyMap = Dict::new();
    let mut i: usize = 0;
    while i < stylesheet.rules.len()
        invariant
            i <= stylesheet.rules@.len(),
            stylesheet@.len() == stylesheet.rules@.len(),
            properties@ == cascade(stylesheet@, node_type@, i as nat),
        decreases stylesheet.rules@.len() - i,
    {
        let rule = &stylesheet.rules[i];
        assert(stylesheet@[i as int] == rule@);
        if rule.matches_type(node_type) {
            apply_rule(&mut properties, rule);
        }
        i += 1;
    }
    properties
}

/// Resolves the style of `node` and of every node below it.
///
/// The result is never `None`: a node that no rule applies to gets an empty
/// property map.
pub fn to_styled_node<'a>(node: &'a Box<Node>, stylesheet: &Stylesheet) -> (r: Option<
    StyledNode<'a>,
>)
    ensures
        r matches Some(s) && s@ == styled(node@, stylesheet@),
    decreases node,
{
    let properties = resolve_properties(&node.node_type, stylesheet);
    let mut children: Vec<StyledNode<'a>> = Vec::new();
    let mut i: usize = 0;
    while i < node.children.len()
        invariant
            i <= node.children@.len(),
            children@.len() == i,
            forall|j: int|
                0 <= j < i ==> (#[trigger] children@[j])@ == styled(
                    node.children@[j]@,
                    stylesheet@,
                ),
        decreases node.children@.len() - i,
    {
        let child = to_styled_node(&node.children[i], stylesheet).unwrap();
        children.push(child);
        i += 1;
    }
    let s = StyledNode { node_type: &node.node_type, children, properties };
    proof {
        node.lemma_view();
        assert(s@.children =~= styled(node@, stylesheet@).children);
    }
    Some(s)
}

} // verus!
