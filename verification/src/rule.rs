//! The rule graph: rules, groups, expressions and their qualifiers.

use vstd::prelude::*;
use crate::position::{CharacterPosition, CharacterPositionView};
use crate::text::{clone_strings, str_is, string_views};

verus! {

/// The views of a list of values.
pub open spec fn views<T: View>(s: Seq<T>) -> Seq<T::V> {
    Seq::new(s.len(), |i: int| s[i]@)
}

/// The views of a list with one more value at its end.
pub proof fn lemma_views_push<T: View>(s: Seq<T>, t: T)
    ensures
        views(s.push(t)) == views(s).push(t@),
{
    assert(views(s.push(t)) =~= views(s).push(t@));
}

/// A bound that may be infinite.
#[derive(Clone, Copy, Debug, PartialEq, Eq, Structural)]
pub enum Infinitable {
    Normal(usize),
    Infinite,
}

/// How often an element repeats: at least `min` times and at most `max`
/// times.
#[derive(Clone, Copy, Debug, PartialEq, Eq, Structural)]
pub struct RuleElementLoopCount {
    pub min: usize,
    pub max: Infinitable,
}

/// A loop count in numbers: `max` is absent where the count has no upper
/// bound.
pub ghost struct LoopCountView {
    pub min: int,
    pub max: Option<int>,
}

impl View for RuleElementLoopCount {
    type V = LoopCountView;

    open spec fn view(&self) -> LoopCountView {
        LoopCountView {
            min: self.min as int,
            max: match self.max {
                Infinitable::Normal(max) => Some(max as int),
                Infinitable::Infinite => None,
            },
        }
    }
}

impl LoopCountView {
    /// A count is valid when its lower bound does not exceed its upper bound
    /// and its upper bound is not zero.
    pub open spec fn valid(self) -> bool {
        0 <= self.min && match self.max {
            Some(max) => self.min <= max && max != 0,
            None => true,
        }
    }

    /// Exactly once.
    pub open spec fn single() -> LoopCountView {
        LoopCountView { min: 1, max: Some(1) }
    }

    /// The count that a loop symbol stands for: `?` is at most once, `*` any
    /// number of times, `+` at least once. Any other text is exactly once.
    pub open spec fn of_symbol(symbol: Seq<char>) -> LoopCountView {
        if symbol == "?"@ {
            LoopCountView { min: 0, max: Some(1) }
        } else if symbol == "*"@ {
            LoopCountView { min: 0, max: None }
        } else if symbol == "+"@ {
            LoopCountView { min: 1, max: None }
        } else {
            LoopCountView::single()
        }
    }
}

impl RuleElementLoopCount {
    /// The count from `min` to `max`.
    pub fn new(min: usize, max: Infinitable) -> (r: Self)
        ensures
            r == (RuleElementLoopCount { min, max }),
    {
        RuleElementLoopCount { min, max }
    }

    /// Exactly once.
    pub fn get_single_loop() -> (r: Self)
        ensures
            r@ == LoopCountView::single(),
    {
        RuleElementLoopCount { min: 1, max: Infinitable::Normal(1) }
    }

    /// The count that a loop symbol stands for.
    pub fn from_symbol(symbol: &String) -> (r: Self)
        ensures
            r@ == LoopCountView::of_symbol(symbol@),
    {
        if str_is(symbol, "?") {
            RuleElementLoopCount { min: 0, max: Infinitable::Normal(1) }
        } else if str_is(symbol, "*") {
            RuleElementLoopCount { min: 0, max: Infinitable::Infinite }
        } else if str_is(symbol, "+") {
            RuleElementLoopCount { min: 1, max: Infinitable::Infinite }
        } else {
            RuleElementLoopCount::get_single_loop()
        }
    }

    /// Whether the count is exactly once.
    pub fn is_single_loop(&self) -> (r: bool)
        ensures
            r == (self@ == LoopCountView::single()),
    {
        self.min == 1 && match self.max {
            Infinitable::Normal(max) => max == 1,
            Infinitable::Infinite => false,
        }
    }
}

/// A match that consumes nothing: `&` succeeds where the element matches,
/// `!` where it does not.
#[derive(Clone, Copy, Debug, PartialEq, Eq, Structural)]
pub enum RuleElementLookaheadKind {
    NoLookahead,
    Positive,
    Negative,
}

impl RuleElementLookaheadKind {
    /// The lookahead that a symbol stands for: `&` is positive, `!` is
    /// negative, and any other text is none.
    pub open spec fn of_symbol(symbol: Seq<char>) -> RuleElementLookaheadKind {
        if symbol == "&"@ {
            RuleElementLookaheadKind::Positive
        } else if symbol == "!"@ {
            RuleElementLookaheadKind::Negative
        } else {
            RuleElementLookaheadKind::NoLookahead
        }
    }

    /// The lookahead that a symbol stands for.
    pub fn new(symbol: &String) -> (r: Self)
        ensures
            r == RuleElementLookaheadKind::of_symbol(symbol@),
    {
        if str_is(symbol, "&") {
            RuleElementLookaheadKind::Positive
        } else if str_is(symbol, "!") {
            RuleElementLookaheadKind::Negative
        } else {
            RuleElementLookaheadKind::NoLookahead
        }
    }
}

/// What a matched element leaves in the output tree: a node under the given
/// name (the empty name stands for the element's default name), nothing, or
/// its children in place of itself.
#[derive(Debug, PartialEq, Eq)]
pub enum ASTReflectionStyle {
    Reflection(String),
    NoReflection,
    Expansion,
}

/// The view of a reflection style.
pub ghost enum ASTReflectionStyleView {
    Reflection(Seq<char>),
    NoReflection,
    Expansion,
}

impl View for ASTReflectionStyle {
    type V = ASTReflectionStyleView;

    open spec fn view(&self) -> ASTReflectionStyleView {
        match self {
            ASTReflectionStyle::Reflection(name) => ASTReflectionStyleView::Reflection(name@),
            ASTReflectionStyle::NoReflection => ASTReflectionStyleView::NoReflection,
            ASTReflectionStyle::Expansion => ASTReflectionStyleView::Expansion,
        }
    }
}

impl Clone for ASTReflectionStyle {
    fn clone(&self) -> (r: Self)
        ensures
            r == *self,
    {
        match self {
            ASTReflectionStyle::Reflection(name) => ASTReflectionStyle::Reflection(name.clone()),
            ASTReflectionStyle::NoReflection => ASTReflectionStyle::NoReflection,
            ASTReflectionStyle::Expansion => ASTReflectionStyle::Expansion,
        }
    }
}

impl ASTReflectionStyle {
    /// The style of an element by whether it carries the mark `#` and
    /// whether marks are read in reverse: a marked element is left out and
    /// an unmarked one reflected under `name`, or the other way round.
    pub open spec fn of_config(reversed: bool, marked: bool, name: Seq<char>) -> ASTReflectionStyleView {
        if marked == reversed {
            ASTReflectionStyleView::Reflection(name)
        } else {
            ASTReflectionStyleView::NoReflection
        }
    }

    /// The style of an element by its mark and by how marks are read.
    pub fn from_config(reversed: bool, marked: bool, name: String) -> (r: Self)
        ensures
            r@ == ASTReflectionStyle::of_config(reversed, marked, name@),
    {
        if marked == reversed {
            ASTReflectionStyle::Reflection(name)
        } else {
            ASTReflectionStyle::NoReflection
        }
    }

    /// Whether the style reflects under a name.
    pub fn is_reflectable(&self) -> (r: bool)
        ensures
            r == (self@ is Reflection),
    {
        match self {
            ASTReflectionStyle::Reflection(_) => true,
            _ => false,
        }
    }
}

/// How the children of a group are matched: each in turn, the first that
/// matches, or in any order with the given number of occurrences.
#[derive(Clone, Copy, Debug, PartialEq, Eq, Structural)]
pub enum RuleGroupKind {
    Choice,
    Sequence,
    RandomOrder(RuleElementLoopCount),
}

/// The view of the kind of a group.
pub ghost enum RuleGroupKindView {
    Choice,
    Sequence,
    RandomOrder(LoopCountView),
}

impl View for RuleGroupKind {
    type V = RuleGroupKindView;

    open spec fn view(&self) -> RuleGroupKindView {
        match self {
            RuleGroupKind::Choice => RuleGroupKindView::Choice,
            RuleGroupKind::Sequence => RuleGroupKindView::Sequence,
            RuleGroupKind::RandomOrder(count) => RuleGroupKindView::RandomOrder(count@),
        }
    }
}

/// What a leaf of a rule body is: a parameter of the rule, a character
/// class, a call of a rule with function or with generic arguments, a
/// reference to a rule, a literal text, or any one character.
#[derive(Debug, PartialEq, Eq)]
pub enum RuleExpressionKind {
    ArgID,
    CharClass,
    Func(Vec<RuleGroup>),
    Generics(Vec<RuleGroup>),
    ID,
    String,
    Wildcard,
}

/// A leaf of a rule body.
#[derive(Debug, PartialEq, Eq)]
pub struct RuleExpression {
    pub pos: CharacterPosition,
    pub kind: RuleExpressionKind,
    pub value: String,
    pub ast_reflection_style: ASTReflectionStyle,
    pub lookahead_kind: RuleElementLookaheadKind,
    pub loop_count: RuleElementLoopCount,
}

/// An inner node of a rule body.
#[derive(Debug, PartialEq, Eq)]
pub struct RuleGroup {
    pub kind: RuleGroupKind,
    pub sub_elems: Vec<RuleElement>,
    pub ast_reflection_style: ASTReflectionStyle,
    pub lookahead_kind: RuleElementLookaheadKind,
    pub loop_count: RuleElementLoopCount,
}

/// A node of a rule body.
#[derive(Debug, PartialEq, Eq)]
pub enum RuleElement {
    Group(RuleGroup),
    Expression(RuleExpression),
}

/// The view of the kind of an expression.
pub ghost enum RuleExpressionKindView {
    ArgID,
    CharClass,
    Func(Seq<RuleGroupView>),
    Generics(Seq<RuleGroupView>),
    ID,
    String,
    Wildcard,
}

/// The view of an expression.
pub ghost struct RuleExpressionView {
    pub pos: CharacterPositionView,
    pub kind: RuleExpressionKindView,
    pub value: Seq<char>,
    pub ast_reflection_style: ASTReflectionStyleView,
    pub lookahead_kind: RuleElementLookaheadKind,
    pub loop_count: LoopCountView,
}

/// The view of a group.
pub ghost struct RuleGroupView {
    pub kind: RuleGroupKindView,
    pub sub_elems: Seq<RuleElementView>,
    pub ast_reflection_style: ASTReflectionStyleView,
    pub lookahead_kind: RuleElementLookaheadKind,
    pub loop_count: LoopCountView,
}

/// The view of a node of a rule body.
pub ghost enum RuleElementView {
    Group(RuleGroupView),
    Expression(RuleExpressionView),
}

impl View for RuleExpressionKind {
    type V = RuleExpressionKindView;

    open spec fn view(&self) -> RuleExpressionKindView
        decreases self,
    {
        match self {
            RuleExpressionKind::ArgID => RuleExpressionKindView::ArgID,
            RuleExpressionKind::CharClass => RuleExpressionKindView::CharClass,
            RuleExpressionKind::Func(args) => RuleExpressionKindView::Func(group_views(args@)),
            RuleExpressionKind::Generics(args) => RuleExpressionKindView::Generics(
                group_views(args@),
            ),
            RuleExpressionKind::ID => RuleExpressionKindView::ID,
            RuleExpressionKind::String => RuleExpressionKindView::String,
            RuleExpressionKind::Wildcard => RuleExpressionKindView::Wildcard,
        }
    }
}

impl View for RuleExpression {
    type V = RuleExpressionView;

    open spec fn view(&self) -> RuleExpressionView
        decreases self,
    {
        RuleExpressionView {
            pos: self.pos@,
            kind: self.kind.view(),
            value: self.value@,
            ast_reflection_style: self.ast_reflection_style@,
            lookahead_kind: self.lookahead_kind,
            loop_count: self.loop_count@,
        }
    }
}

impl View for RuleGroup {
    type V = RuleGroupView;

    open spec fn view(&self) -> RuleGroupView
        decreases self,
    {
        RuleGroupView {
            kind: self.kind@,
            sub_elems: element_views(self.sub_elems@),
            ast_reflection_style: self.ast_reflection_style@,
            lookahead_kind: self.lookahead_kind,
            loop_count: self.loop_count@,
        }
    }
}

impl View for RuleElement {
    type V = RuleElementView;

    open spec fn view(&self) -> RuleElementView
        decreases self,
    {
        match self {
            RuleElement::Group(group) => RuleElementView::Group(group.view()),
            RuleElement::Expression(expr) => RuleElementView::Expression(expr.view()),
        }
    }
}

/// The views of a list of elements, in order.
pub open spec fn element_views(elems: Seq<RuleElement>) -> Seq<RuleElementView>
    decreases elems,
{
    if elems.len() == 0 {
        Seq::empty()
    } else {
        element_views(elems.drop_last()).push(elems.last().view())
    }
}

/// The views of a list of groups, in order.
pub open spec fn group_views(groups: Seq<RuleGroup>) -> Seq<RuleGroupView>
    decreases groups,
{
    if groups.len() == 0 {
        Seq::empty()
    } else {
        group_views(groups.drop_last()).push(groups.last().view())
    }
}

/// The views of a list of elements are the views of its elements.
pub proof fn lemma_element_views(elems: Seq<RuleElement>)
    ensures
        element_views(elems) == views(elems),
    decreases elems.len(),
{
    if elems.len() > 0 {
        lemma_element_views(elems.drop_last());
        assert(views(elems.drop_last()).push(elems.last()@) =~= views(elems));
    } else {
        assert(element_views(elems) =~= views(elems));
    }
}

/// The views of a list of groups are the views of its groups.
pub proof fn lemma_group_views(groups: Seq<RuleGroup>)
    ensures
        group_views(groups) == views(groups),
    decreases groups.len(),
{
    if groups.len() > 0 {
        lemma_group_views(groups.drop_last());
        assert(views(groups.drop_last()).push(groups.last()@) =~= views(groups));
    } else {
        assert(group_views(groups) =~= views(groups));
    }
}

/// The children of a group, seen one by one.
pub proof fn lemma_group_children(group: RuleGroup)
    ensures
        group@.sub_elems == views(group.sub_elems@),
{
    lemma_element_views(group.sub_elems@);
}

/// The arguments of a call expression, seen one by one.
pub proof fn lemma_kind_args(kind: RuleExpressionKind)
    ensures
        kind matches RuleExpressionKind::Func(args) ==> kind@ == RuleExpressionKindView::Func(
            views(args@),
        ),
        kind matches RuleExpressionKind::Generics(args) ==> kind@
            == RuleExpressionKindView::Generics(views(args@)),
{
    match kind {
        RuleExpressionKind::Func(args) => {
            lemma_group_views(args@);
        },
        RuleExpressionKind::Generics(args) => {
            lemma_group_views(args@);
        },
        _ => {},
    }
}

impl Clone for RuleExpressionKind {
    fn clone(&self) -> (r: Self)
        ensures
            r@ == self@,
        decreases self,
    {
        match self {
            RuleExpressionKind::ArgID => RuleExpressionKind::ArgID,
            RuleExpressionKind::CharClass => RuleExpressionKind::CharClass,
            RuleExpressionKind::Func(args) => {
                let copy = clone_groups(args);
                let r = RuleExpressionKind::Func(copy);
                proof {
                    lemma_kind_args(r);
                    lemma_kind_args(*self);
                }
                r
            },
            RuleExpressionKind::Generics(args) => {
                let copy = clone_groups(args);
                let r = RuleExpressionKind::Generics(copy);
                proof {
                    lemma_kind_args(r);
                    lemma_kind_args(*self);
                }
                r
            },
            RuleExpressionKind::ID => RuleExpressionKind::ID,
            RuleExpressionKind::String => RuleExpressionKind::String,
            RuleExpressionKind::Wildcard => RuleExpressionKind::Wildcard,
        }
    }
}

fn clone_groups(groups: &Vec<RuleGroup>) -> (r: Vec<RuleGroup>)
    ensures
        views(r@) == views(groups@),
    decreases groups,
{
    let mut out: Vec<RuleGroup> = Vec::new();
    let mut i: usize = 0;
    while i < groups.len()
        invariant
            0 <= i <= groups.len(),
            views(out@) == views(groups@.take(i as int)),
        decreases groups.len() - i,
    {
        let copy = groups[i].clone();
        proof {
            lemma_views_push(out@, copy);
            assert(groups@.take(i as int + 1) =~= groups@.take(i as int).push(groups@[i as int]));
            lemma_views_push(groups@.take(i as int), groups@[i as int]);
        }
        out.push(copy);
        i = i + 1;
    }
    proof {
        assert(groups@.take(i as int) =~= groups@);
    }
    out
}

fn clone_elements(elems: &Vec<RuleElement>) -> (r: Vec<RuleElement>)
    ensures
        views(r@) == views(elems@),
    decreases elems,
{
    let mut out: Vec<RuleElement> = Vec::new();
    let mut i: usize = 0;
    while i < elems.len()
        invariant
            0 <= i <= elems.len(),
            views(out@) == views(elems@.take(i as int)),
        decreases elems.len() - i,
    {
        let copy = elems[i].clone();
        proof {
            lemma_views_push(out@, copy);
            assert(elems@.take(i as int + 1) =~= elems@.take(i as int).push(elems@[i as int]));
            lemma_views_push(elems@.take(i as int), elems@[i as int]);
        }
        out.push(copy);
        i = i + 1;
    }
    proof {
        assert(elems@.take(i as int) =~= elems@);
    }
    out
}

impl Clone for RuleExpression {
    fn clone(&self) -> (r: Self)
        ensures
            r@ == self@,
        decreases self,
    {
        RuleExpression {
            pos: self.pos.clone(),
            kind: self.kind.clone(),
            value: self.value.clone(),
            ast_reflection_style: self.ast_reflection_style.clone(),
            lookahead_kind: self.lookahead_kind,
            loop_count: self.loop_count,
        }
    }
}

impl Clone for RuleGroup {
    fn clone(&self) -> (r: Self)
        ensures
            r@ == self@,
        decreases self,
    {
        let sub_elems = clone_elements(&self.sub_elems);
        let r = RuleGroup {
            kind: self.kind,
            sub_elems,
            ast_reflection_style: self.ast_reflection_style.clone(),
            lookahead_kind: self.lookahead_kind,
            loop_count: self.loop_count,
        };
        proof {
            lemma_group_children(r);
            lemma_group_children(*self);
        }
        r
    }
}

impl Clone for RuleElement {
    fn clone(&self) -> (r: Self)
        ensures
            r@ == self@,
        decreases self,
    {
        match self {
            RuleElement::Group(group) => RuleElement::Group(group.clone()),
            RuleElement::Expression(expr) => RuleElement::Expression(expr.clone()),
        }
    }
}

/// A named production: its place, its fully-qualified identifier, its name
/// within its block, the names of its generic and of its function
/// parameters, and its body.
#[derive(Debug, PartialEq, Eq)]
pub struct Rule {
    pub pos: CharacterPosition,
    pub id: String,
    pub name: String,
    pub generics_arg_ids: Vec<String>,
    pub func_arg_ids: Vec<String>,
    pub group: RuleGroup,
}

/// The view of a rule.
pub ghost struct RuleView {
    pub pos: CharacterPositionView,
    pub id: Seq<char>,
    pub name: Seq<char>,
    pub generics_arg_ids: Seq<Seq<char>>,
    pub func_arg_ids: Seq<Seq<char>>,
    pub group: RuleGroupView,
}

impl View for Rule {
    type V = RuleView;

    open spec fn view(&self) -> RuleView {
        RuleView {
            pos: self.pos@,
            id: self.id@,
            name: self.name@,
            generics_arg_ids: string_views(self.generics_arg_ids@),
            func_arg_ids: string_views(self.func_arg_ids@),
            group: self.group@,
        }
    }
}

/// No string stands twice in the list.
pub open spec fn distinct_strings(list: Seq<Seq<char>>) -> bool {
    forall|i: int, j: int| 0 <= i < j < list.len() ==> list[i] != list[j]
}

impl RuleView {
    /// Within each of the two parameter lists, no name stands twice.
    pub open spec fn has_distinct_parameters(self) -> bool {
        distinct_strings(self.generics_arg_ids) && distinct_strings(self.func_arg_ids)
    }
}

impl Clone for Rule {
    fn clone(&self) -> (r: Self)
        ensures
            r@ == self@,
    {
        Rule {
            pos: self.pos.clone(),
            id: self.id.clone(),
            name: self.name.clone(),
            generics_arg_ids: clone_strings(&self.generics_arg_ids),
            func_arg_ids: clone_strings(&self.func_arg_ids),
            group: self.group.clone(),
        }
    }
}

impl Rule {
    pub fn new(
        pos: CharacterPosition,
        id: String,
        name: String,
        generics_arg_ids: Vec<String>,
        func_arg_ids: Vec<String>,
        group: RuleGroup,
    ) -> (r: Self)
        ensures
            r.pos == pos,
            r.id == id,
            r.name == name,
            r.generics_arg_ids == generics_arg_ids,
            r.func_arg_ids == func_arg_ids,
            r.group == group,
    {
        Rule { pos, id, name, generics_arg_ids, func_arg_ids, group }
    }
}

impl RuleGroupView {
    /// A group of the given kind without children and without qualifiers:
    /// not reflected, no lookahead, matched once.
    pub open spec fn plain(kind: RuleGroupKindView) -> RuleGroupView {
        RuleGroupView {
            kind,
            sub_elems: Seq::empty(),
            ast_reflection_style: ASTReflectionStyleView::NoReflection,
            lookahead_kind: RuleElementLookaheadKind::NoLookahead,
            loop_count: LoopCountView::single(),
        }
    }
}

impl RuleExpressionView {
    /// An expression without qualifiers: not reflected, no lookahead,
    /// matched once.
    pub open spec fn plain(
        pos: CharacterPositionView,
        kind: RuleExpressionKindView,
        value: Seq<char>,
    ) -> RuleExpressionView {
        RuleExpressionView {
            pos,
            kind,
            value,
            ast_reflection_style: ASTReflectionStyleView::NoReflection,
            lookahead_kind: RuleElementLookaheadKind::NoLookahead,
            loop_count: LoopCountView::single(),
        }
    }
}

impl RuleGroup {
    /// A group of the given kind without children and without qualifiers.
    pub fn new(kind: RuleGroupKind) -> (r: Self)
        ensures
            r@ == RuleGroupView::plain(kind@),
            r.sub_elems@.len() == 0,
    {
        let r = RuleGroup {
            kind,
            sub_elems: Vec::new(),
            ast_reflection_style: ASTReflectionStyle::NoReflection,
            lookahead_kind: RuleElementLookaheadKind::NoLookahead,
            loop_count: RuleElementLoopCount::get_single_loop(),
        };
        proof {
            lemma_group_children(r);
            assert(r@.sub_elems =~= Seq::<RuleElementView>::empty());
        }
        r
    }

    /// A group of the given kind over the given children, without
    /// qualifiers.
    pub fn with_children(kind: RuleGroupKind, sub_elems: Vec<RuleElement>) -> (r: Self)
        ensures
            r@ == (RuleGroupView { sub_elems: views(sub_elems@), ..RuleGroupView::plain(kind@) }),
            r.sub_elems == sub_elems,
    {
        let r = RuleGroup {
            kind,
            sub_elems,
            ast_reflection_style: ASTReflectionStyle::NoReflection,
            lookahead_kind: RuleElementLookaheadKind::NoLookahead,
            loop_count: RuleElementLoopCount::get_single_loop(),
        };
        proof {
            lemma_group_children(r);
        }
        r
    }
}

impl RuleExpression {
    /// An expression without qualifiers.
    pub fn new(pos: CharacterPosition, kind: RuleExpressionKind, value: String) -> (r: Self)
        ensures
            r@ == RuleExpressionView::plain(pos@, kind@, value@),
    {
        RuleExpression {
            pos,
            kind,
            value,
            ast_reflection_style: ASTReflectionStyle::NoReflection,
            lookahead_kind: RuleElementLookaheadKind::NoLookahead,
            loop_count: RuleElementLoopCount::get_single_loop(),
        }
    }
}

} // verus!
