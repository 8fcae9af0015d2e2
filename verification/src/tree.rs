//! Concrete syntax trees of grammar sources, and the queries that the
//! lowering makes on them.

use vstd::prelude::*;
use crate::position::{CharacterPosition, CharacterPositionView};
use crate::rule::{views, ASTReflectionStyle, ASTReflectionStyleView};
use crate::text::str_is;

verus! {

/// A piece of matched text.
#[derive(Debug, PartialEq, Eq)]
pub struct SyntaxLeaf {
    pub pos: CharacterPosition,
    pub value: String,
    pub ast_reflection_style: ASTReflectionStyle,
}

/// An inner node: what a rule or a group matched.
#[derive(Debug, PartialEq, Eq)]
pub struct SyntaxNode {
    pub sub_elems: Vec<SyntaxNodeElement>,
    pub ast_reflection_style: ASTReflectionStyle,
}

/// A child of a node: a node or a leaf.
#[derive(Debug, PartialEq, Eq)]
pub enum SyntaxNodeElement {
    Node(SyntaxNode),
    Leaf(SyntaxLeaf),
}

/// The syntax tree of one grammar source.
#[derive(Debug, PartialEq, Eq)]
pub struct SyntaxTree {
    pub child: SyntaxNodeElement,
}

/// The view of a leaf.
pub ghost struct SyntaxLeafView {
    pub pos: CharacterPositionView,
    pub value: Seq<char>,
    pub ast_reflection_style: ASTReflectionStyleView,
}

/// The view of a node.
pub ghost struct SyntaxNodeView {
    pub sub_elems: Seq<SyntaxNodeElementView>,
    pub ast_reflection_style: ASTReflectionStyleView,
}

/// The view of a child of a node.
pub ghost enum SyntaxNodeElementView {
    Node(SyntaxNodeView),
    Leaf(SyntaxLeafView),
}

impl View for SyntaxLeaf {
    type V = SyntaxLeafView;

    open spec fn view(&self) -> SyntaxLeafView {
        SyntaxLeafView {
            pos: self.pos@,
            value: self.value@,
            ast_reflection_style: self.ast_reflection_style@,
        }
    }
}

impl View for SyntaxNode {
    type V = SyntaxNodeView;

    open spec fn view(&self) -> SyntaxNodeView
        decreases self,
    {
        SyntaxNodeView {
            sub_elems: syntax_views(self.sub_elems@),
            ast_reflection_style: self.ast_reflection_style@,
        }
    }
}

impl View for SyntaxNodeElement {
    type V = SyntaxNodeElementView;

    open spec fn view(&self) -> SyntaxNodeElementView
        decreases self,
    {
        match self {
            SyntaxNodeElement::Node(node) => SyntaxNodeElementView::Node(node.view()),
            SyntaxNodeElement::Leaf(leaf) => SyntaxNodeElementView::Leaf(leaf@),
        }
    }
}

impl View for SyntaxTree {
    type V = SyntaxNodeElementView;

    open spec fn view(&self) -> SyntaxNodeElementView {
        self.child@
    }
}

/// The views of a list of tree elements, in order.
pub open spec fn syntax_views(elems: Seq<SyntaxNodeElement>) -> Seq<SyntaxNodeElementView>
    decreases elems,
{
    if elems.len() == 0 {
        Seq::empty()
    } else {
        syntax_views(elems.drop_last()).push(elems.last().view())
    }
}

/// The views of a list of tree elements are the views of its elements.
pub proof fn lemma_syntax_views(elems: Seq<SyntaxNodeElement>)
    ensures
        syntax_views(elems) == views(elems),
    decreases elems.len(),
{
    if elems.len() > 0 {
        lemma_syntax_views(elems.drop_last());
        assert(views(elems.drop_last()).push(elems.last()@) =~= views(elems));
    } else {
        assert(syntax_views(elems) =~= views(elems));
    }
}

/// The children of a node, seen one by one.
pub proof fn lemma_node_children(node: SyntaxNode)
    ensures
        node@.sub_elems == views(node.sub_elems@),
        node@.sub_elems.len() == node.sub_elems@.len(),
        forall|i: int| 0 <= i < node.sub_elems@.len() ==> node@.sub_elems[i] == (#[trigger] node.sub_elems@[i])@,
{
    lemma_syntax_views(node.sub_elems@);
}

/// The reflection style that an element carries.
pub open spec fn style_of(elem: SyntaxNodeElementView) -> ASTReflectionStyleView {
    match elem {
        SyntaxNodeElementView::Node(node) => node.ast_reflection_style,
        SyntaxNodeElementView::Leaf(leaf) => leaf.ast_reflection_style,
    }
}

/// An element is reflectable when it is reflected under a name.
pub open spec fn is_reflectable(elem: SyntaxNodeElementView) -> bool {
    style_of(elem) is Reflection
}

/// Whether an element is a node reflected under `name`.
pub open spec fn is_node_named(elem: SyntaxNodeElementView, name: Seq<char>) -> bool {
    elem is Node && style_of(elem) == ASTReflectionStyleView::Reflection(name)
}

/// An index moved right by `by`.
pub open spec fn shifted(index: Option<int>, by: int) -> Option<int> {
    match index {
        Some(j) => Some(j + by),
        None => None,
    }
}

/// The index of the reflectable element that `n` reflectable elements
/// precede.
pub open spec fn nth_reflectable(elems: Seq<SyntaxNodeElementView>, n: int) -> Option<int>
    decreases elems.len(),
{
    if elems.len() == 0 {
        None
    } else if is_reflectable(elems[0]) {
        if n == 0 {
            Some(0)
        } else {
            shifted(nth_reflectable(elems.drop_first(), n - 1), 1)
        }
    } else {
        shifted(nth_reflectable(elems.drop_first(), n), 1)
    }
}

/// The index of the first node that is reflected under `first` or under
/// `second`.
pub open spec fn first_named(
    elems: Seq<SyntaxNodeElementView>,
    first: Seq<char>,
    second: Seq<char>,
) -> Option<int>
    decreases elems.len(),
{
    if elems.len() == 0 {
        None
    } else if is_node_named(elems[0], first) || is_node_named(elems[0], second) {
        Some(0)
    } else {
        shifted(first_named(elems.drop_first(), first, second), 1)
    }
}

/// The reflectable child of a node that `n` reflectable children precede.
pub open spec fn child_at(node: SyntaxNodeView, n: int) -> Option<SyntaxNodeElementView> {
    match nth_reflectable(node.sub_elems, n) {
        Some(j) => if 0 <= j < node.sub_elems.len() {
            Some(node.sub_elems[j])
        } else {
            None
        },
        None => None,
    }
}

/// The same child, where it is a node.
pub open spec fn node_child_at(node: SyntaxNodeView, n: int) -> Option<SyntaxNodeView> {
    match child_at(node, n) {
        Some(SyntaxNodeElementView::Node(child)) => Some(child),
        _ => None,
    }
}

/// The same child, where it is a leaf.
pub open spec fn leaf_child_at(node: SyntaxNodeView, n: int) -> Option<SyntaxLeafView> {
    match child_at(node, n) {
        Some(SyntaxNodeElementView::Leaf(child)) => Some(child),
        _ => None,
    }
}

/// The first child node that is reflected under `first` or under `second`.
pub open spec fn child_named_either(node: SyntaxNodeView, first: Seq<char>, second: Seq<char>) -> Option<
    SyntaxNodeView,
> {
    match first_named(node.sub_elems, first, second) {
        Some(j) => if 0 <= j < node.sub_elems.len() {
            match node.sub_elems[j] {
                SyntaxNodeElementView::Node(child) => Some(child),
                SyntaxNodeElementView::Leaf(_) => None,
            }
        } else {
            None
        },
        None => None,
    }
}

/// The first child node that is reflected under `name`.
pub open spec fn child_named(node: SyntaxNodeView, name: Seq<char>) -> Option<SyntaxNodeView> {
    child_named_either(node, name, name)
}

/// The text under a node: the values of the reflectable leaves below it, in
/// order.
pub open spec fn leaf_values(node: SyntaxNodeView) -> Seq<char>
    decreases node,
{
    leaf_values_of(node.sub_elems)
}

/// The text under a list of elements.
pub open spec fn leaf_values_of(elems: Seq<SyntaxNodeElementView>) -> Seq<char>
    decreases elems,
{
    if elems.len() == 0 {
        Seq::empty()
    } else {
        leaf_values_of(elems.drop_last()) + match elems.last() {
            SyntaxNodeElementView::Node(node) => leaf_values(node),
            SyntaxNodeElementView::Leaf(leaf) => if leaf.ast_reflection_style is Reflection {
                leaf.value
            } else {
                Seq::empty()
            },
        }
    }
}

/// Where a node starts: the position of its first child, or of that child's
/// first child, and so on down to a leaf. A node without children starts
/// nowhere.
pub open spec fn position_of(node: SyntaxNodeView) -> Option<CharacterPositionView>
    decreases node,
{
    if node.sub_elems.len() == 0 {
        None
    } else {
        match node.sub_elems[0] {
            SyntaxNodeElementView::Node(child) => position_of(child),
            SyntaxNodeElementView::Leaf(leaf) => Some(leaf.pos),
        }
    }
}

proof fn lemma_nth_reflectable_skip(elems: Seq<SyntaxNodeElementView>, i: int, seen: int, n: int)
    requires
        0 <= i < elems.len(),
        0 <= seen <= n,
        nth_reflectable(elems, n) == shifted(nth_reflectable(elems.skip(i), n - seen), i),
    ensures
        is_reflectable(elems[i]) && seen == n ==> nth_reflectable(elems, n) == Some(i),
        is_reflectable(elems[i]) && seen < n ==> nth_reflectable(elems, n) == shifted(
            nth_reflectable(elems.skip(i + 1), n - seen - 1),
            i + 1,
        ),
        !is_reflectable(elems[i]) ==> nth_reflectable(elems, n) == shifted(
            nth_reflectable(elems.skip(i + 1), n - seen),
            i + 1,
        ),
{
    assert(elems.skip(i).drop_first() =~= elems.skip(i + 1));
    assert(elems.skip(i)[0] == elems[i]);
}

proof fn lemma_first_named_skip(
    elems: Seq<SyntaxNodeElementView>,
    i: int,
    first: Seq<char>,
    second: Seq<char>,
)
    requires
        0 <= i < elems.len(),
        first_named(elems, first, second) == shifted(first_named(elems.skip(i), first, second), i),
    ensures
        is_node_named(elems[i], first) || is_node_named(elems[i], second) ==> first_named(
            elems,
            first,
            second,
        ) == Some(i),
        !(is_node_named(elems[i], first) || is_node_named(elems[i], second)) ==> first_named(
            elems,
            first,
            second,
        ) == shifted(first_named(elems.skip(i + 1), first, second), i + 1),
{
    assert(elems.skip(i).drop_first() =~= elems.skip(i + 1));
    assert(elems.skip(i)[0] == elems[i]);
}

impl SyntaxLeaf {
    pub fn new(pos: CharacterPosition, value: String, ast_reflection_style: ASTReflectionStyle) -> (r:
        Self)
        ensures
            r.pos == pos,
            r.value == value,
            r.ast_reflection_style == ast_reflection_style,
    {
        SyntaxLeaf { pos, value, ast_reflection_style }
    }
}

impl SyntaxNodeElement {
    /// The reflection style that the element carries.
    pub fn get_ast_reflection_style(&self) -> (r: &ASTReflectionStyle)
        ensures
            r@ == style_of(self@),
    {
        match self {
            SyntaxNodeElement::Node(node) => &node.ast_reflection_style,
            SyntaxNodeElement::Leaf(leaf) => &leaf.ast_reflection_style,
        }
    }

    /// Whether the element is reflected under a name.
    pub fn is_reflectable(&self) -> (r: bool)
        ensures
            r == is_reflectable(self@),
    {
        self.get_ast_reflection_style().is_reflectable()
    }

    /// The element as a node.
    pub fn get_node(&self) -> (r: Option<&SyntaxNode>)
        ensures
            match r {
                Some(node) => *self == SyntaxNodeElement::Node(*node),
                None => self is Leaf,
            },
    {
        match self {
            SyntaxNodeElement::Node(node) => Some(node),
            SyntaxNodeElement::Leaf(_) => None,
        }
    }

    /// The element as a leaf.
    pub fn get_leaf(&self) -> (r: Option<&SyntaxLeaf>)
        ensures
            match r {
                Some(leaf) => *self == SyntaxNodeElement::Leaf(*leaf),
                None => self is Node,
            },
    {
        match self {
            SyntaxNodeElement::Node(_) => None,
            SyntaxNodeElement::Leaf(leaf) => Some(leaf),
        }
    }

    /// Whether the element is a node reflected under `name`.
    pub fn is_node_named(&self, name: &str) -> (r: bool)
        ensures
            r == is_node_named(self@, name@),
    {
        match self {
            SyntaxNodeElement::Node(node) => node.is_named(name),
            SyntaxNodeElement::Leaf(_) => false,
        }
    }
}

impl SyntaxNode {
    pub fn new(sub_elems: Vec<SyntaxNodeElement>, ast_reflection_style: ASTReflectionStyle) -> (r:
        Self)
        ensures
            r.sub_elems == sub_elems,
            r.ast_reflection_style == ast_reflection_style,
    {
        SyntaxNode { sub_elems, ast_reflection_style }
    }

    /// Whether the node is reflected under `name`.
    pub fn is_named(&self, name: &str) -> (r: bool)
        ensures
            r == (self@.ast_reflection_style == ASTReflectionStyleView::Reflection(name@)),
    {
        match &self.ast_reflection_style {
            ASTReflectionStyle::Reflection(own) => str_is(own, name),
            _ => false,
        }
    }

    /// The reflectable child that `index` reflectable children precede.
    pub fn get_child_at(&self, index: usize) -> (r: Option<&SyntaxNodeElement>)
        ensures
            match r {
                Some(elem) => child_at(self@, index as int) == Some(elem@) && decreases_to!(self => elem),
                None => child_at(self@, index as int) is None,
            },
    {
        proof {
            lemma_node_children(*self);
        }
        let ghost elems = self@.sub_elems;
        let mut seen: usize = 0;
        let mut i: usize = 0;
        proof {
            assert(elems.skip(0) =~= elems);
        }
        while i < self.sub_elems.len()
            invariant
                0 <= i <= self.sub_elems.len(),
                elems == self@.sub_elems,
                elems.len() == self.sub_elems@.len(),
                forall|k: int| 0 <= k < self.sub_elems@.len() ==> elems[k] == (#[trigger] self.sub_elems@[k])@,
                0 <= seen <= index,
                nth_reflectable(elems, index as int) == shifted(
                    nth_reflectable(elems.skip(i as int), index - seen),
                    i as int,
                ),
            decreases self.sub_elems.len() - i,
        {
            proof {
                lemma_nth_reflectable_skip(elems, i as int, seen as int, index as int);
            }
            if self.sub_elems[i].is_reflectable() {
                if seen == index {
                    return Some(&self.sub_elems[i]);
                }
                seen = seen + 1;
            }
            i = i + 1;
        }
        proof {
            assert(elems.skip(i as int) =~= Seq::<SyntaxNodeElementView>::empty());
        }
        None
    }

    /// The same child, where it is a node.
    pub fn get_node_child_at(&self, index: usize) -> (r: Option<&SyntaxNode>)
        ensures
            match r {
                Some(node) => node_child_at(self@, index as int) == Some(node@) && decreases_to!(self => node),
                None => node_child_at(self@, index as int) is None,
            },
    {
        match self.get_child_at(index) {
            Some(SyntaxNodeElement::Node(node)) => Some(node),
            _ => None,
        }
    }

    /// The same child, where it is a leaf.
    pub fn get_leaf_child_at(&self, index: usize) -> (r: Option<&SyntaxLeaf>)
        ensures
            match r {
                Some(leaf) => leaf_child_at(self@, index as int) == Some(leaf@),
                None => leaf_child_at(self@, index as int) is None,
            },
    {
        match self.get_child_at(index) {
            Some(SyntaxNodeElement::Leaf(leaf)) => Some(leaf),
            _ => None,
        }
    }

    /// The first child node that is reflected under `first` or under `second`.
    pub fn find_first_child_node_of(&self, first: &str, second: &str) -> (r: Option<&SyntaxNode>)
        ensures
            match r {
                Some(node) => child_named_either(self@, first@, second@) == Some(node@) && decreases_to!(self => node),
                None => child_named_either(self@, first@, second@) is None,
            },
    {
        proof {
            lemma_node_children(*self);
        }
        let ghost elems = self@.sub_elems;
        let mut i: usize = 0;
        proof {
            assert(elems.skip(0) =~= elems);
        }
        while i < self.sub_elems.len()
            invariant
                0 <= i <= self.sub_elems.len(),
                elems == self@.sub_elems,
                elems.len() == self.sub_elems@.len(),
                forall|k: int| 0 <= k < self.sub_elems@.len() ==> elems[k] == (#[trigger] self.sub_elems@[k])@,
                first_named(elems, first@, second@) == shifted(
                    first_named(elems.skip(i as int), first@, second@),
                    i as int,
                ),
            decreases self.sub_elems.len() - i,
        {
            proof {
                lemma_first_named_skip(elems, i as int, first@, second@);
            }
            if self.sub_elems[i].is_node_named(first) || self.sub_elems[i].is_node_named(second) {
                return self.sub_elems[i].get_node();
            }
            i = i + 1;
        }
        proof {
            assert(elems.skip(i as int) =~= Seq::<SyntaxNodeElementView>::empty());
        }
        None
    }

    /// The first child node that is reflected under `name`.
    pub fn find_first_child_node(&self, name: &str) -> (r: Option<&SyntaxNode>)
        ensures
            match r {
                Some(node) => child_named(self@, name@) == Some(node@) && decreases_to!(self => node),
                None => child_named(self@, name@) is None,
            },
    {
        self.find_first_child_node_of(name, name)
    }

    /// The text under the node.
    pub fn join_child_leaf_values(&self) -> (r: String)
        ensures
            r@ == leaf_values(self@),
        decreases self,
    {
        proof {
            lemma_node_children(*self);
        }
        let ghost elems = self@.sub_elems;
        let mut s = String::new();
        let mut i: usize = 0;
        proof {
            assert(elems.take(0) =~= Seq::<SyntaxNodeElementView>::empty());
        }
        while i < self.sub_elems.len()
            invariant
                0 <= i <= self.sub_elems.len(),
                elems == self@.sub_elems,
                elems.len() == self.sub_elems@.len(),
                forall|k: int| 0 <= k < self.sub_elems@.len() ==> elems[k] == (#[trigger] self.sub_elems@[k])@,
                s@ == leaf_values_of(elems.take(i as int)),
            decreases self.sub_elems.len() - i,
        {
            proof {
                assert(elems.take(i as int + 1).drop_last() =~= elems.take(i as int));
                assert(elems.take(i as int + 1).last() == elems[i as int]);
            }
            match &self.sub_elems[i] {
                SyntaxNodeElement::Node(node) => {
                    let part = node.join_child_leaf_values();
                    s.append(part.as_str());
                },
                SyntaxNodeElement::Leaf(leaf) => {
                    if leaf.ast_reflection_style.is_reflectable() {
                        s.append(leaf.value.as_str());
                    } else {
                        assert(s@ + Seq::<char>::empty() =~= s@);
                    }
                },
            }
            i = i + 1;
        }
        proof {
            assert(elems.take(i as int) =~= elems);
        }
        s
    }

    /// Where the node starts.
    pub fn get_position(&self) -> (r: Option<CharacterPosition>)
        ensures
            match r {
                Some(pos) => position_of(self@) == Some(pos@),
                None => position_of(self@) is None,
            },
        decreases self,
    {
        proof {
            lemma_node_children(*self);
        }
        if self.sub_elems.len() == 0 {
            None
        } else {
            match &self.sub_elems[0] {
                SyntaxNodeElement::Node(child) => child.get_position(),
                SyntaxNodeElement::Leaf(leaf) => Some(leaf.pos.clone()),
            }
        }
    }
}

impl SyntaxTree {
    pub fn new(child: SyntaxNodeElement) -> (r: Self)
        ensures
            r.child == child,
    {
        SyntaxTree { child }
    }

    /// The root of the tree.
    pub fn get_child_ref(&self) -> (r: &SyntaxNodeElement)
        ensures
            *r == self.child,
    {
        &self.child
    }
}

} // verus!
