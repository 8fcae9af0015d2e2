//! Element lowering: from the syntax tree of a rule body to the groups and
//! expressions of the rule graph.

use vstd::prelude::*;
use crate::blockparser::BlockParser;
use crate::error::{BlockParseError, BlockParseErrorView, Console};
use crate::position::{empty_position, CharacterPosition, CharacterPositionView};
use crate::resolve::{
    lemma_recorded_concat, lemma_recorded_one, malformed, malformed_tree, recorded,
    resolved_rule_id, result_view, to_rule_id, AppearedIds, Lowered, Scope, ScopeView,
};
use crate::rule::{
    lemma_group_children, lemma_kind_args, lemma_views_push, views, ASTReflectionStyle,
    ASTReflectionStyleView, Infinitable, LoopCountView, RuleElement, RuleElementLookaheadKind,
    RuleElementLoopCount, RuleElementView, RuleExpression, RuleExpressionKind,
    RuleExpressionKindView, RuleExpressionView, RuleGroup, RuleGroupKind, RuleGroupKindView,
    RuleGroupView,
};
use crate::text::{dotted, join_dotted, parse_number, parsed_number, str_is, string_views};
use crate::tree::{
    child_at, child_named, child_named_either, is_reflectable, leaf_child_at, leaf_values,
    lemma_node_children, node_child_at, position_of, SyntaxNode, SyntaxNodeElement,
    SyntaxNodeElementView, SyntaxNodeView,
};

verus! {

/// The qualifiers that an element of a sequence carries.
pub ghost struct Decorations {
    pub lookahead_kind: RuleElementLookaheadKind,
    pub loop_count: LoopCountView,
    pub occurrence: Option<LoopCountView>,
    pub ast_reflection_style: ASTReflectionStyleView,
}

/// The diagnostic for a loop count that cannot be read or admits no
/// repetition.
pub open spec fn invalid_loop_count() -> BlockParseErrorView {
    BlockParseErrorView::InvalidLoopCount { pos: empty_position() }
}

/// The count that a range with the given bounds stands for. A lower bound
/// that is left out is zero; an upper bound that is left out is infinite.
/// A range whose lower bound exceeds its upper bound, or whose upper bound
/// is zero, stands for no count.
pub open spec fn loop_range(min: Option<int>, max: Option<int>) -> Option<LoopCountView> {
    let count = LoopCountView {
        min: match min {
            Some(n) => n,
            None => 0,
        },
        max,
    };
    if count.valid() {
        Some(count)
    } else {
        None
    }
}

/// Loop-count parsing: a range `{a,b}` with `a <= b`, other than `{0,0}`,
/// stands for the count from `a` to `b`; `{,m}` for zero to `m`; `{n,}` for
/// `n` and more.
pub proof fn lemma_loop_range(a: int, b: int)
    requires
        0 <= a,
        0 <= b,
    ensures
        a <= b && !(a == 0 && b == 0) ==> loop_range(Some(a), Some(b)) == Some(
            LoopCountView { min: a, max: Some(b) },
        ),
        a > b || (a == 0 && b == 0) ==> loop_range(Some(a), Some(b)) is None,
        b != 0 ==> loop_range(None, Some(b)) == Some(LoopCountView { min: 0, max: Some(b) }),
        loop_range(Some(a), None) == Some(LoopCountView { min: a, max: None }),
{
}

/// A bound as written in a range: a node holds the digits of a number, a
/// leaf stands for a bound that is left out. The outer option is empty
/// where the digits write no number.
pub open spec fn written_bound(elem: SyntaxNodeElementView) -> Option<Option<int>> {
    match elem {
        SyntaxNodeElementView::Node(digits) => match parsed_number(leaf_values(digits)) {
            Some(n) => Some(Some(n as int)),
            None => None,
        },
        SyntaxNodeElementView::Leaf(_) => Some(None),
    }
}

/// The count that a range node stands for. With two children they are its
/// lower and its upper bound; with one child, a number, both bounds are
/// that number.
pub open spec fn written_range(range: SyntaxNodeView) -> Option<LoopCountView> {
    match child_at(range, 0) {
        None => None,
        Some(first) => match child_at(range, 1) {
            None => match written_bound(first) {
                Some(Some(n)) => loop_range(Some(n), Some(n)),
                _ => None,
            },
            Some(second) => match written_bound(first) {
                None => None,
                Some(min) => match written_bound(second) {
                    None => None,
                    Some(max) => loop_range(min, max),
                },
            },
        },
    }
}

/// The lookahead that an element carries.
pub open spec fn lookahead_of(elem: SyntaxNodeView) -> Result<
    RuleElementLookaheadKind,
    BlockParseErrorView,
> {
    match child_named(elem, ".Rule.Lookahead"@) {
        None => Ok(RuleElementLookaheadKind::NoLookahead),
        Some(mark) => match leaf_child_at(mark, 0) {
            None => Err(malformed()),
            Some(leaf) => if leaf.value == "&"@ {
                Ok(RuleElementLookaheadKind::Positive)
            } else if leaf.value == "!"@ {
                Ok(RuleElementLookaheadKind::Negative)
            } else {
                Err(BlockParseErrorView::InternalError { msg: "unknown lookahead kind"@ })
            },
        },
    }
}

/// The loop count that an element carries: once where none is written.
pub open spec fn loop_of(elem: SyntaxNodeView) -> Result<LoopCountView, BlockParseErrorView> {
    match child_named(elem, ".Rule.Loop"@) {
        None => Ok(LoopCountView::single()),
        Some(mark) => match child_at(mark, 0) {
            None => Err(malformed()),
            Some(SyntaxNodeElementView::Node(range)) => match written_range(range) {
                Some(count) => Ok(count),
                None => Err(invalid_loop_count()),
            },
            Some(SyntaxNodeElementView::Leaf(leaf)) => if leaf.value == "?"@ || leaf.value == "*"@
                || leaf.value == "+"@ {
                Ok(LoopCountView::of_symbol(leaf.value))
            } else {
                Err(BlockParseErrorView::InternalError { msg: "unknown loop kind"@ })
            },
        },
    }
}

/// The number of occurrences that a random-order mark on an element gives:
/// none where the element carries no mark, once where the mark has no
/// range.
pub open spec fn occurrence_of(elem: SyntaxNodeView) -> Result<
    Option<LoopCountView>,
    BlockParseErrorView,
> {
    match child_named(elem, ".Rule.RandomOrder"@) {
        None => Ok(None),
        Some(mark) => match child_named(mark, ".Rule.RandomOrderRange"@) {
            None => Ok(Some(LoopCountView::single())),
            Some(range) => match written_range(range) {
                Some(count) => Ok(Some(count)),
                None => Err(invalid_loop_count()),
            },
        },
    }
}

/// The reflection style that an element carries: `##` expands it, `#`
/// alone leaves it out, `#` with a name reflects it under that name, and
/// without a mark it is reflected under its default name.
pub open spec fn reflection_of(elem: SyntaxNodeView) -> ASTReflectionStyleView {
    match child_named(elem, ".Rule.ASTReflectionStyle"@) {
        None => ASTReflectionStyleView::Reflection(Seq::empty()),
        Some(mark) => match leaf_child_at(mark, 0) {
            None => ASTReflectionStyleView::NoReflection,
            Some(leaf) => if leaf.value == "##"@ {
                ASTReflectionStyleView::Expansion
            } else {
                ASTReflectionStyleView::Reflection(leaf_values(mark))
            },
        },
    }
}

/// The qualifiers of an element, read in the order lookahead, loop, random
/// order, reflection; the first that cannot be read is the error.
pub open spec fn decorations_of(elem: SyntaxNodeView) -> Result<Decorations, BlockParseErrorView> {
    match lookahead_of(elem) {
        Err(error) => Err(error),
        Ok(lookahead_kind) => match loop_of(elem) {
            Err(error) => Err(error),
            Ok(loop_count) => match occurrence_of(elem) {
                Err(error) => Err(error),
                Ok(occurrence) => Ok(
                    Decorations {
                        lookahead_kind,
                        loop_count,
                        occurrence,
                        ast_reflection_style: reflection_of(elem),
                    },
                ),
            },
        },
    }
}

/// Loop-count parsing, on the element: where an element carries a range
/// whose bounds are written as `min` and `max`, its loop count is the count
/// that `loop_range` gives for them, and an invalid loop count where it
/// gives none.
pub proof fn lemma_loop_count_of_range(
    elem: SyntaxNodeView,
    range: SyntaxNodeView,
    min: Option<int>,
    max: Option<int>,
)
    requires
        child_named(elem, ".Rule.Loop"@) matches Some(mark) && child_at(mark, 0) == Some(
            SyntaxNodeElementView::Node(range),
        ),
        child_at(range, 0) matches Some(first) && written_bound(first) == Some(min),
        child_at(range, 1) matches Some(second) && written_bound(second) == Some(max),
    ensures
        loop_of(elem) == match loop_range(min, max) {
            Some(count) => Ok::<LoopCountView, BlockParseErrorView>(count),
            None => Err(invalid_loop_count()),
        },
{
}

/// Every loop count and every number of occurrences that is read from an
/// element is valid.
pub proof fn lemma_read_counts_are_valid(elem: SyntaxNodeView)
    ensures
        decorations_of(elem) matches Ok(decorations) ==> decorations.loop_count.valid() && (
        decorations.occurrence matches Some(count) ==> count.valid()),
{
    reveal_strlit("?");
    reveal_strlit("*");
    reveal_strlit("+");
}

/// The character that an escape sequence stands for, by the character
/// behind the backslash.
pub open spec fn unescaped(value: Seq<char>) -> Option<Seq<char>> {
    if value == "\\"@ {
        Some(seq!['\\'])
    } else if value == "\""@ {
        Some(seq!['"'])
    } else if value == "n"@ {
        Some(seq!['\n'])
    } else if value == "t"@ {
        Some(seq!['\t'])
    } else if value == "z"@ {
        Some(seq!['\0'])
    } else {
        None
    }
}

/// The text that one piece of a string literal stands for: a node is an
/// escape sequence, a leaf is plain text, and only reflected pieces count.
pub open spec fn string_piece(elem: SyntaxNodeElementView) -> Result<Seq<char>, BlockParseErrorView> {
    match elem {
        SyntaxNodeElementView::Node(escape) => if escape.ast_reflection_style is Reflection {
            match leaf_child_at(escape, 0) {
                None => Err(malformed()),
                Some(leaf) => match unescaped(leaf.value) {
                    Some(text) => Ok(text),
                    None => match position_of(escape) {
                        Some(pos) => Err(
                            BlockParseErrorView::UnknownEscapeSequenceCharacter { pos },
                        ),
                        None => Err(malformed()),
                    },
                },
            }
        } else {
            Ok(Seq::empty())
        },
        SyntaxNodeElementView::Leaf(leaf) => if leaf.ast_reflection_style is Reflection {
            Ok(leaf.value)
        } else {
            Ok(Seq::empty())
        },
    }
}

/// The text that a string literal stands for: its pieces in order, up to
/// the first piece that is in error.
pub open spec fn string_value(elems: Seq<SyntaxNodeElementView>) -> Result<
    Seq<char>,
    BlockParseErrorView,
>
    decreases elems.len(),
{
    if elems.len() == 0 {
        Ok(Seq::empty())
    } else {
        match string_piece(elems[0]) {
            Err(error) => Err(error),
            Ok(text) => match string_value(elems.drop_first()) {
                Err(error) => Err(error),
                Ok(rest) => Ok(text + rest),
            },
        }
    }
}

/// Escape decoding: an escape sequence with one of the five defined
/// characters gives the character it stands for, and a string whose first
/// piece is any other escape sequence gives the one error that names the
/// escape.
pub proof fn lemma_escape_table(escape: SyntaxNodeView, value: Seq<char>, rest: Seq<SyntaxNodeElementView>)
    requires
        escape.ast_reflection_style is Reflection,
        leaf_child_at(escape, 0) is Some,
        leaf_child_at(escape, 0)->0.value == value,
        position_of(escape) is Some,
    ensures
        unescaped("\\"@) == Some(seq!['\\']),
        unescaped("\""@) == Some(seq!['"']),
        unescaped("n"@) == Some(seq!['\n']),
        unescaped("t"@) == Some(seq!['\t']),
        unescaped("z"@) == Some(seq!['\0']),
        !(value == "\\"@ || value == "\""@ || value == "n"@ || value == "t"@ || value == "z"@)
            ==> string_value(seq![SyntaxNodeElementView::Node(escape)] + rest) == Err::<
            Seq<char>,
            BlockParseErrorView,
        >(BlockParseErrorView::UnknownEscapeSequenceCharacter { pos: position_of(escape)->0 }),
{
    reveal_strlit("\\");
    reveal_strlit("\"");
    reveal_strlit("n");
    reveal_strlit("t");
    reveal_strlit("z");
    assert("\\"@[0] == '\\' && "\""@[0] == '"' && "n"@[0] == 'n' && "t"@[0] == 't' && "z"@[0] == 'z');
    let elems = seq![SyntaxNodeElementView::Node(escape)] + rest;
    assert(elems[0] == SyntaxNodeElementView::Node(escape));
}

/// The parts of a chain identifier: the text under each reflectable child,
/// which must be a node.
pub open spec fn chain_tokens(elems: Seq<SyntaxNodeElementView>) -> Option<Seq<Seq<char>>>
    decreases elems.len(),
{
    if elems.len() == 0 {
        Some(Seq::empty())
    } else if !is_reflectable(elems[0]) {
        chain_tokens(elems.drop_first())
    } else {
        match elems[0] {
            SyntaxNodeElementView::Node(part) => match chain_tokens(elems.drop_first()) {
                Some(rest) => Some(seq![leaf_values(part)] + rest),
                None => None,
            },
            SyntaxNodeElementView::Leaf(_) => None,
        }
    }
}

/// Whether a name is that of a built-in function, which is called as
/// written and not resolved.
pub open spec fn is_primitive_function(name: Seq<char>) -> bool {
    name == "JOIN"@
}

/// The rule that an identifier or a call names: the place of the chain
/// identifier and the identifier it resolves to. The resolved identifier
/// is recorded as referenced. Where `primitive_allowed` holds and the chain
/// is the name of a built-in function, the name stands as it is and
/// nothing is recorded.
pub open spec fn call_target(node: SyntaxNodeView, primitive_allowed: bool, scope: ScopeView) -> Lowered<
    (CharacterPositionView, Seq<char>),
> {
    match node_child_at(node, 0) {
        None => Lowered::fail(malformed()),
        Some(chain) => match node_child_at(chain, 0) {
            None => Lowered::fail(malformed()),
            Some(first) => match position_of(first) {
                None => Lowered::fail(malformed()),
                Some(pos) => match chain_tokens(chain.sub_elems) {
                    None => Lowered::fail(malformed()),
                    Some(tokens) => if primitive_allowed && is_primitive_function(dotted(tokens)) {
                        Lowered::done((pos, dotted(tokens)))
                    } else {
                        let resolved = resolved_rule_id(pos, tokens, scope);
                        match resolved.value {
                            Err(_) => resolved.failed(),
                            Ok(id) => Lowered {
                                value: Ok((pos, id)),
                                refs: seq![(id, pos)],
                                warnings: resolved.warnings,
                            },
                        }
                    },
                },
            },
        },
    }
}

/// The place of the first reflected leaf that holds the separator `sep`.
pub open spec fn separator_position(elems: Seq<SyntaxNodeElementView>, sep: Seq<char>) -> Option<
    CharacterPositionView,
>
    decreases elems.len(),
{
    if elems.len() == 0 {
        None
    } else {
        match elems[0] {
            SyntaxNodeElementView::Leaf(leaf) => if leaf.ast_reflection_style is Reflection
                && leaf.value == sep {
                Some(leaf.pos)
            } else {
                separator_position(elems.drop_first(), sep)
            },
            SyntaxNodeElementView::Node(_) => separator_position(elems.drop_first(), sep),
        }
    }
}

/// The diagnostic for a choice that separates its alternatives both by
/// `:` and by `,`.
pub open spec fn mixed_separators(pos: CharacterPositionView) -> BlockParseErrorView {
    BlockParseErrorView::UnexpectedToken { pos, unexpected_token: ","@, expected_str: "':'"@ }
}

/// The kind of a choice by its separators: `:` makes an ordered choice,
/// `,` a choice in random order; without separators it is a sequence.
pub open spec fn kind_by_separators(colon: bool, comma: bool) -> RuleGroupKindView {
    if colon {
        RuleGroupKindView::Choice
    } else if comma {
        RuleGroupKindView::RandomOrder(LoopCountView::single())
    } else {
        RuleGroupKindView::Sequence
    }
}

/// A sequence that holds a single group is that group.
pub open spec fn collapsed(group: RuleGroupView) -> RuleGroupView {
    if group.kind is Sequence && group.sub_elems.len() == 1 {
        match group.sub_elems[0] {
            RuleElementView::Group(inner) => inner,
            RuleElementView::Expression(_) => group,
        }
    } else {
        group
    }
}

/// A lowered choice under the qualifiers of the element that holds it. A
/// random-order mark makes its alternatives a group in random order with
/// the given number of occurrences, and does not go with alternatives that
/// `:` separates. Without the mark, a single alternative stands for itself.
pub open spec fn decorated_group(group: RuleGroupView, decorations: Decorations) -> Result<
    RuleGroupView,
    BlockParseErrorView,
> {
    match decorations.occurrence {
        Some(occurrence) => if group.kind is Choice {
            Err(
                BlockParseErrorView::UnexpectedToken {
                    pos: empty_position(),
                    unexpected_token: ":"@,
                    expected_str: "','"@,
                },
            )
        } else {
            Ok(
                RuleGroupView {
                    kind: RuleGroupKindView::RandomOrder(occurrence),
                    sub_elems: group.sub_elems,
                    ast_reflection_style: decorations.ast_reflection_style,
                    lookahead_kind: decorations.lookahead_kind,
                    loop_count: decorations.loop_count,
                },
            )
        },
        None => Ok(
            RuleGroupView {
                kind: collapsed(group).kind,
                sub_elems: collapsed(group).sub_elems,
                ast_reflection_style: decorations.ast_reflection_style,
                lookahead_kind: decorations.lookahead_kind,
                loop_count: decorations.loop_count,
            },
        ),
    }
}

/// A lowered expression under the qualifiers of the element that holds it.
pub open spec fn decorated_expr(expr: RuleExpressionView, decorations: Decorations) -> RuleExpressionView {
    RuleExpressionView {
        ast_reflection_style: decorations.ast_reflection_style,
        lookahead_kind: decorations.lookahead_kind,
        loop_count: decorations.loop_count,
        ..expr
    }
}

/// The diagnostic for a random-order mark on an expression.
pub open spec fn misplaced_random_order() -> BlockParseErrorView {
    BlockParseErrorView::UnexpectedToken {
        pos: empty_position(),
        unexpected_token: "^"@,
        expected_str: "nothing"@,
    }
}

/// One outcome followed by the outcome for the rest of a list: the values
/// in order, unless the first outcome is an error, which then is the
/// outcome.
pub open spec fn chain<T>(first: Lowered<T>, rest: Lowered<Seq<T>>) -> Lowered<Seq<T>> {
    match first.value {
        Err(error) => Lowered { value: Err(error), refs: first.refs, warnings: first.warnings },
        Ok(value) => Lowered {
            value: match rest.value {
                Ok(values) => Ok(seq![value] + values),
                Err(error) => Err(error),
            },
            refs: first.refs + rest.refs,
            warnings: first.warnings + rest.warnings,
        },
    }
}

/// The outcome for a list of which a first part is done, with the given
/// values, references and warnings, and `rest` is the outcome for what
/// follows.
pub open spec fn prefixed<T>(
    values: Seq<T>,
    refs: Seq<(Seq<char>, CharacterPositionView)>,
    warnings: Seq<BlockParseErrorView>,
    rest: Lowered<Seq<T>>,
) -> Lowered<Seq<T>> {
    Lowered {
        value: match rest.value {
            Ok(more) => Ok(values + more),
            Err(error) => Err(error),
        },
        refs: refs + rest.refs,
        warnings: warnings + rest.warnings,
    }
}

/// Before anything is done, the outcome is that of the whole list.
pub proof fn lemma_prefixed_start<T>(rest: Lowered<Seq<T>>)
    ensures
        prefixed(Seq::empty(), Seq::empty(), Seq::empty(), rest) == rest,
{
    let p = prefixed(Seq::<T>::empty(), Seq::empty(), Seq::empty(), rest);
    assert(p.refs =~= rest.refs);
    assert(p.warnings =~= rest.warnings);
    match rest.value {
        Ok(more) => {
            assert(Seq::<T>::empty() + more =~= more);
        },
        Err(_) => {},
    }
}

/// When nothing follows, the outcome is what was done.
pub proof fn lemma_prefixed_end<T>(
    values: Seq<T>,
    refs: Seq<(Seq<char>, CharacterPositionView)>,
    warnings: Seq<BlockParseErrorView>,
)
    ensures
        prefixed(values, refs, warnings, Lowered::done(Seq::empty())) == (Lowered {
            value: Ok(values),
            refs,
            warnings,
        }),
{
    let p = prefixed(values, refs, warnings, Lowered::done(Seq::<T>::empty()));
    assert(p.refs =~= refs);
    assert(p.warnings =~= warnings);
    assert(values + Seq::<T>::empty() =~= values);
}

/// One more outcome moves from what follows to what is done.
pub proof fn lemma_prefixed_chain<T>(
    values: Seq<T>,
    refs: Seq<(Seq<char>, CharacterPositionView)>,
    warnings: Seq<BlockParseErrorView>,
    first: Lowered<T>,
    rest: Lowered<Seq<T>>,
)
    ensures
        first.value is Ok ==> prefixed(values, refs, warnings, chain(first, rest)) == prefixed(
            values.push(first.value->Ok_0),
            refs + first.refs,
            warnings + first.warnings,
            rest,
        ),
        first.value is Err ==> prefixed(values, refs, warnings, chain(first, rest)) == (Lowered::<
            Seq<T>,
        > {
            value: Err(first.value->Err_0),
            refs: refs + first.refs,
            warnings: warnings + first.warnings,
        }),
{
    let left = prefixed(values, refs, warnings, chain(first, rest));
    match first.value {
        Ok(value) => {
            let right = prefixed(
                values.push(value),
                refs + first.refs,
                warnings + first.warnings,
                rest,
            );
            assert(left.refs =~= right.refs);
            assert(left.warnings =~= right.warnings);
            match rest.value {
                Ok(more) => {
                    assert(values + (seq![value] + more) =~= values.push(value) + more);
                },
                Err(_) => {},
            }
        },
        Err(_) => {},
    }
}

/// The group that a choice node lowers to, before its place is taken into
/// account: its alternatives as children of a group whose kind follows from
/// the separators. A choice that uses both separators is in error, and so
/// is one without alternatives.
pub open spec fn lower_choice(node: SyntaxNodeView, scope: ScopeView) -> Lowered<RuleGroupView>
    decreases node,
{
    let colon = separator_position(node.sub_elems, ":"@);
    let comma = separator_position(node.sub_elems, ","@);
    if colon is Some && comma is Some {
        Lowered::fail(mixed_separators(comma->0))
    } else {
        let alternatives = lower_alternatives(node.sub_elems, scope);
        match alternatives.value {
            Err(_) => alternatives.failed(),
            Ok(children) => if children.len() == 0 {
                alternatives.with(
                    Err(
                        BlockParseErrorView::NoChoiceOrExpressionContent { pos: empty_position() },
                    ),
                )
            } else {
                alternatives.with(
                    Ok(
                        RuleGroupView {
                            sub_elems: children,
                            ..RuleGroupView::plain(kind_by_separators(colon is Some, comma is Some))
                        },
                    ),
                )
            },
        }
    }
}

/// The alternatives among the children of a choice node: each sequence
/// node, lowered, in order.
pub open spec fn lower_alternatives(elems: Seq<SyntaxNodeElementView>, scope: ScopeView) -> Lowered<
    Seq<RuleElementView>,
>
    decreases elems,
{
    if elems.len() == 0 {
        Lowered::done(Seq::empty())
    } else {
        match elems[0] {
            SyntaxNodeElementView::Node(seq_node) => if seq_node.ast_reflection_style
                == ASTReflectionStyleView::Reflection(".Rule.Seq"@) {
                let first = lower_seq(seq_node, scope);
                chain(
                    first.with(
                        match first.value {
                            Ok(group) => Ok(RuleElementView::Group(group)),
                            Err(error) => Err(error),
                        },
                    ),
                    lower_alternatives(elems.drop_first(), scope),
                )
            } else {
                lower_alternatives(elems.drop_first(), scope)
            },
            SyntaxNodeElementView::Leaf(_) => lower_alternatives(elems.drop_first(), scope),
        }
    }
}

/// The sequence group that a sequence node lowers to.
pub open spec fn lower_seq(node: SyntaxNodeView, scope: ScopeView) -> Lowered<RuleGroupView>
    decreases node,
{
    let elems = lower_seq_elems(node.sub_elems, scope);
    elems.with(
        match elems.value {
            Ok(children) => Ok(
                RuleGroupView {
                    sub_elems: children,
                    ..RuleGroupView::plain(RuleGroupKindView::Sequence)
                },
            ),
            Err(error) => Err(error),
        },
    )
}

/// The elements of a sequence node: each reflectable child, which must be
/// a node, lowered, in order.
pub open spec fn lower_seq_elems(elems: Seq<SyntaxNodeElementView>, scope: ScopeView) -> Lowered<
    Seq<RuleElementView>,
>
    decreases elems,
{
    if elems.len() == 0 {
        Lowered::done(Seq::empty())
    } else if !is_reflectable(elems[0]) {
        lower_seq_elems(elems.drop_first(), scope)
    } else {
        match elems[0] {
            SyntaxNodeElementView::Node(elem) => chain(
                lower_seq_elem(elem, scope),
                lower_seq_elems(elems.drop_first(), scope),
            ),
            SyntaxNodeElementView::Leaf(_) => Lowered::fail(malformed()),
        }
    }
}

/// The element that one element node of a sequence lowers to: its body, a
/// choice in parentheses or an expression, under its qualifiers.
pub open spec fn lower_seq_elem(node: SyntaxNodeView, scope: ScopeView) -> Lowered<RuleElementView>
    decreases node,
{
    match decorations_of(node) {
        Err(error) => Lowered::fail(error),
        Ok(decorations) => match child_named_either(node, ".Rule.Choice"@, ".Rule.Expr"@) {
            None => Lowered::fail(malformed()),
            Some(body) => if body.ast_reflection_style == ASTReflectionStyleView::Reflection(
                ".Rule.Choice"@,
            ) {
                match node_child_at(body, 0) {
                    None => Lowered::fail(malformed()),
                    Some(choice) => {
                        let lowered = lower_choice(choice, scope);
                        match lowered.value {
                            Err(_) => lowered.failed(),
                            Ok(group) => lowered.with(
                                match decorated_group(group, decorations) {
                                    Ok(shaped) => Ok(RuleElementView::Group(shaped)),
                                    Err(error) => Err(error),
                                },
                            ),
                        }
                    },
                }
            } else if decorations.occurrence is Some {
                Lowered::fail(misplaced_random_order())
            } else {
                let lowered = lower_expr(body, scope);
                lowered.with(
                    match lowered.value {
                        Ok(expr) => Ok(
                            RuleElementView::Expression(decorated_expr(expr, decorations)),
                        ),
                        Err(error) => Err(error),
                    },
                )
            },
        },
    }
}

/// The expression with the place of `node`, or the error for a node
/// without a place.
pub open spec fn positioned(
    node: SyntaxNodeView,
    kind: RuleExpressionKindView,
    value: Seq<char>,
) -> Lowered<RuleExpressionView> {
    match position_of(node) {
        Some(pos) => Lowered::done(RuleExpressionView::plain(pos, kind, value)),
        None => Lowered::fail(malformed()),
    }
}

/// The diagnostic for an expression node of a kind that is not known.
pub open spec fn unknown_expression(name: Seq<char>) -> BlockParseErrorView {
    BlockParseErrorView::InternalError { msg: "unknown expression name '"@ + name + "'"@ }
}

/// The expression that an expression node lowers to, by the kind of its
/// child: a parameter, a character class, a call with generic or function
/// arguments, an identifier, a string or the wildcard.
pub open spec fn lower_expr(node: SyntaxNodeView, scope: ScopeView) -> Lowered<RuleExpressionView>
    decreases node,
{
    match node_child_at(node, 0) {
        None => Lowered::fail(malformed()),
        Some(child) => match child.ast_reflection_style {
            ASTReflectionStyleView::Reflection(name) => if name == ".Rule.ArgID"@ {
                positioned(child, RuleExpressionKindView::ArgID, leaf_values(child))
            } else if name == ".Rule.CharClass"@ {
                positioned(
                    child,
                    RuleExpressionKindView::CharClass,
                    "["@ + leaf_values(child) + "]"@,
                )
            } else if name == ".Rule.Generics"@ || name == ".Rule.Func"@ {
                let args = lower_args(child.sub_elems, scope);
                match args.value {
                    Err(_) => args.failed(),
                    Ok(groups) => {
                        let target = call_target(child, name == ".Rule.Func"@, scope);
                        target.with(
                            match target.value {
                                Ok(found) => Ok(
                                    RuleExpressionView::plain(
                                        found.0,
                                        if name == ".Rule.Func"@ {
                                            RuleExpressionKindView::Func(groups)
                                        } else {
                                            RuleExpressionKindView::Generics(groups)
                                        },
                                        found.1,
                                    ),
                                ),
                                Err(error) => Err(error),
                            },
                        ).after(args.refs, args.warnings)
                    },
                }
            } else if name == ".Rule.ID"@ {
                let target = call_target(child, false, scope);
                target.with(
                    match target.value {
                        Ok(found) => Ok(
                            RuleExpressionView::plain(
                                found.0,
                                RuleExpressionKindView::ID,
                                found.1,
                            ),
                        ),
                        Err(error) => Err(error),
                    },
                )
            } else if name == ".Rule.Str"@ {
                match string_value(child.sub_elems) {
                    Ok(text) => Lowered::done(
                        RuleExpressionView::plain(
                            empty_position(),
                            RuleExpressionKindView::String,
                            text,
                        ),
                    ),
                    Err(error) => Lowered::fail(error),
                }
            } else if name == ".Rule.Wildcard"@ {
                positioned(child, RuleExpressionKindView::Wildcard, "."@)
            } else {
                Lowered::fail(unknown_expression(name))
            },
            _ => Lowered::fail(malformed()),
        },
    }
}

/// The arguments of a call: each argument node among the children, lowered
/// as a choice of its own, in order.
pub open spec fn lower_args(elems: Seq<SyntaxNodeElementView>, scope: ScopeView) -> Lowered<
    Seq<RuleGroupView>,
>
    decreases elems,
{
    if elems.len() == 0 {
        Lowered::done(Seq::empty())
    } else {
        match elems[0] {
            SyntaxNodeElementView::Node(arg) => if arg.ast_reflection_style
                == ASTReflectionStyleView::Reflection(".Rule.InstantPureChoice"@) {
                let first = lower_choice(arg, scope);
                chain(
                    first.with(
                        match first.value {
                            Ok(group) => Ok(collapsed(group)),
                            Err(error) => Err(error),
                        },
                    ),
                    lower_args(elems.drop_first(), scope),
                )
            } else {
                lower_args(elems.drop_first(), scope)
            },
            SyntaxNodeElementView::Leaf(_) => lower_args(elems.drop_first(), scope),
        }
    }
}

/// Separator exclusivity: a choice that separates alternatives both by
/// `:` and by `,` lowers to the one error that says so, with no warning
/// beside it and nothing recorded.
pub proof fn lemma_separator_exclusivity(node: SyntaxNodeView, scope: ScopeView)
    requires
        separator_position(node.sub_elems, ":"@) is Some,
        separator_position(node.sub_elems, ","@) is Some,
    ensures
        lower_choice(node, scope) == Lowered::<RuleGroupView>::fail(
            mixed_separators(separator_position(node.sub_elems, ","@)->0),
        ),
{
}

/// Whether work that gave `value`, and that took the record of referenced
/// identifiers and the sink of diagnostics from their states `before` to
/// their states `after`, is what `lowered` describes.
pub open spec fn carried_out<T>(
    lowered: Lowered<T>,
    value: Result<T, BlockParseErrorView>,
    appeared_before: Seq<(Seq<char>, CharacterPositionView)>,
    appeared_after: Seq<(Seq<char>, CharacterPositionView)>,
    cons_before: Seq<BlockParseErrorView>,
    cons_after: Seq<BlockParseErrorView>,
) -> bool {
    &&& value == lowered.value
    &&& appeared_after == recorded(appeared_before, lowered.refs)
    &&& cons_after == cons_before + lowered.warnings
}

/// Work that touched neither the record nor the sink carries out any
/// outcome without references and warnings.
pub proof fn lemma_carried_out_quietly<T>(
    lowered: Lowered<T>,
    appeared: Seq<(Seq<char>, CharacterPositionView)>,
    cons: Seq<BlockParseErrorView>,
)
    requires
        lowered.refs.len() == 0,
        lowered.warnings.len() == 0,
    ensures
        carried_out(lowered, lowered.value, appeared, appeared, cons, cons),
{
    assert(cons + lowered.warnings =~= cons);
}

/// Two pieces of work, one after the other, carry out what both describe
/// together.
pub proof fn lemma_carried_out_in_turn<T, U>(
    first: Lowered<T>,
    second: Lowered<U>,
    a0: Seq<(Seq<char>, CharacterPositionView)>,
    a1: Seq<(Seq<char>, CharacterPositionView)>,
    a2: Seq<(Seq<char>, CharacterPositionView)>,
    c0: Seq<BlockParseErrorView>,
    c1: Seq<BlockParseErrorView>,
    c2: Seq<BlockParseErrorView>,
)
    requires
        a1 == recorded(a0, first.refs),
        a2 == recorded(a1, second.refs),
        c1 == c0 + first.warnings,
        c2 == c1 + second.warnings,
    ensures
        a2 == recorded(a0, first.refs + second.refs),
        c2 == c0 + (first.warnings + second.warnings),
{
    lemma_recorded_concat(a0, first.refs, second.refs);
    assert(c2 =~= c0 + (first.warnings + second.warnings));
}

/// The qualifiers of an element, as read from its node.
#[derive(Debug)]
pub struct ElementDecorations {
    pub lookahead_kind: RuleElementLookaheadKind,
    pub loop_count: RuleElementLoopCount,
    pub occurrence: Option<RuleElementLoopCount>,
    pub ast_reflection_style: ASTReflectionStyle,
}

impl View for ElementDecorations {
    type V = Decorations;

    open spec fn view(&self) -> Decorations {
        Decorations {
            lookahead_kind: self.lookahead_kind,
            loop_count: self.loop_count@,
            occurrence: match self.occurrence {
                Some(count) => Some(count@),
                None => None,
            },
            ast_reflection_style: self.ast_reflection_style@,
        }
    }
}

fn invalid_loop_count_error() -> (r: BlockParseError)
    ensures
        r@ == invalid_loop_count(),
{
    BlockParseError::InvalidLoopCount { pos: CharacterPosition::get_empty() }
}

fn to_loop_bound(elem: &SyntaxNodeElement) -> (r: Option<Option<usize>>)
    ensures
        match r {
            Some(Some(n)) => written_bound(elem@) == Some(Some(n as int)),
            Some(None) => written_bound(elem@) == Some(None::<int>),
            None => written_bound(elem@) is None,
        },
{
    match elem {
        SyntaxNodeElement::Node(digits) => {
            let text = digits.join_child_leaf_values();
            match parse_number(text.as_str()) {
                Some(n) => Some(Some(n)),
                None => None,
            }
        },
        SyntaxNodeElement::Leaf(_) => Some(None),
    }
}

fn to_loop_count_of(min: Option<usize>, max: Option<usize>) -> (r: Option<RuleElementLoopCount>)
    ensures
        match r {
            Some(count) => loop_range(
                match min {
                    Some(n) => Some(n as int),
                    None => None,
                },
                match max {
                    Some(n) => Some(n as int),
                    None => None,
                },
            ) == Some(count@),
            None => loop_range(
                match min {
                    Some(n) => Some(n as int),
                    None => None,
                },
                match max {
                    Some(n) => Some(n as int),
                    None => None,
                },
            ) is None,
        },
{
    let low: usize = match min {
        Some(n) => n,
        None => 0,
    };
    match max {
        Some(high) => {
            if low <= high && high != 0 {
                Some(RuleElementLoopCount::new(low, Infinitable::Normal(high)))
            } else {
                None
            }
        },
        None => Some(RuleElementLoopCount::new(low, Infinitable::Infinite)),
    }
}

/// Reads the count that a range node stands for.
pub fn to_loop_range(range: &SyntaxNode) -> (r: Option<RuleElementLoopCount>)
    ensures
        match r {
            Some(count) => written_range(range@) == Some(count@),
            None => written_range(range@) is None,
        },
{
    match range.get_child_at(0) {
        None => None,
        Some(first) => match range.get_child_at(1) {
            None => match to_loop_bound(first) {
                Some(Some(n)) => to_loop_count_of(Some(n), Some(n)),
                _ => None,
            },
            Some(second) => match to_loop_bound(first) {
                None => None,
                Some(min) => match to_loop_bound(second) {
                    None => None,
                    Some(max) => to_loop_count_of(min, max),
                },
            },
        },
    }
}

fn to_lookahead_kind(elem: &SyntaxNode) -> (r: Result<RuleElementLookaheadKind, BlockParseError>)
    ensures
        match r {
            Ok(kind) => lookahead_of(elem@) == Ok::<RuleElementLookaheadKind, BlockParseErrorView>(kind),
            Err(error) => lookahead_of(elem@) == Err::<RuleElementLookaheadKind, BlockParseErrorView>(
                error@,
            ),
        },
{
    match elem.find_first_child_node(".Rule.Lookahead") {
        None => Ok(RuleElementLookaheadKind::NoLookahead),
        Some(mark) => match mark.get_leaf_child_at(0) {
            None => Err(malformed_tree()),
            Some(leaf) => {
                if str_is(&leaf.value, "&") {
                    Ok(RuleElementLookaheadKind::Positive)
                } else if str_is(&leaf.value, "!") {
                    Ok(RuleElementLookaheadKind::Negative)
                } else {
                    Err(
                        BlockParseError::InternalError {
                            msg: String::from_str("unknown lookahead kind"),
                        },
                    )
                }
            },
        },
    }
}

fn to_loop_count(elem: &SyntaxNode) -> (r: Result<RuleElementLoopCount, BlockParseError>)
    ensures
        match r {
            Ok(count) => loop_of(elem@) == Ok::<LoopCountView, BlockParseErrorView>(count@),
            Err(error) => loop_of(elem@) == Err::<LoopCountView, BlockParseErrorView>(error@),
        },
{
    match elem.find_first_child_node(".Rule.Loop") {
        None => Ok(RuleElementLoopCount::get_single_loop()),
        Some(mark) => match mark.get_child_at(0) {
            None => Err(malformed_tree()),
            Some(SyntaxNodeElement::Node(range)) => match to_loop_range(range) {
                Some(count) => Ok(count),
                None => Err(invalid_loop_count_error()),
            },
            Some(SyntaxNodeElement::Leaf(leaf)) => {
                if str_is(&leaf.value, "?") || str_is(&leaf.value, "*") || str_is(
                    &leaf.value,
                    "+",
                ) {
                    Ok(RuleElementLoopCount::from_symbol(&leaf.value))
                } else {
                    Err(
                        BlockParseError::InternalError {
                            msg: String::from_str("unknown loop kind"),
                        },
                    )
                }
            },
        },
    }
}

fn to_occurrence(elem: &SyntaxNode) -> (r: Result<Option<RuleElementLoopCount>, BlockParseError>)
    ensures
        match r {
            Ok(Some(count)) => occurrence_of(elem@) == Ok::<
                Option<LoopCountView>,
                BlockParseErrorView,
            >(Some(count@)),
            Ok(None) => occurrence_of(elem@) == Ok::<Option<LoopCountView>, BlockParseErrorView>(
                None,
            ),
            Err(error) => occurrence_of(elem@) == Err::<Option<LoopCountView>, BlockParseErrorView>(
                error@,
            ),
        },
{
    match elem.find_first_child_node(".Rule.RandomOrder") {
        None => Ok(None),
        Some(mark) => match mark.find_first_child_node(".Rule.RandomOrderRange") {
            None => Ok(Some(RuleElementLoopCount::get_single_loop())),
            Some(range) => match to_loop_range(range) {
                Some(count) => Ok(Some(count)),
                None => Err(invalid_loop_count_error()),
            },
        },
    }
}

fn to_reflection_style(elem: &SyntaxNode) -> (r: ASTReflectionStyle)
    ensures
        r@ == reflection_of(elem@),
{
    match elem.find_first_child_node(".Rule.ASTReflectionStyle") {
        None => ASTReflectionStyle::Reflection(String::new()),
        Some(mark) => match mark.get_leaf_child_at(0) {
            None => ASTReflectionStyle::NoReflection,
            Some(leaf) => {
                if str_is(&leaf.value, "##") {
                    ASTReflectionStyle::Expansion
                } else {
                    ASTReflectionStyle::Reflection(mark.join_child_leaf_values())
                }
            },
        },
    }
}

/// Reads the qualifiers of an element of a sequence.
pub fn to_decorations(elem: &SyntaxNode) -> (r: Result<ElementDecorations, BlockParseError>)
    ensures
        result_view(r) == decorations_of(elem@),
{
    let lookahead_kind = match to_lookahead_kind(elem) {
        Ok(kind) => kind,
        Err(error) => {
            return Err(error);
        },
    };
    let loop_count = match to_loop_count(elem) {
        Ok(count) => count,
        Err(error) => {
            return Err(error);
        },
    };
    let occurrence = match to_occurrence(elem) {
        Ok(count) => count,
        Err(error) => {
            return Err(error);
        },
    };
    let ast_reflection_style = to_reflection_style(elem);
    Ok(ElementDecorations { lookahead_kind, loop_count, occurrence, ast_reflection_style })
}

fn unescape(value: &String) -> (r: Option<&'static str>)
    ensures
        match r {
            Some(text) => unescaped(value@) == Some(text@),
            None => unescaped(value@) is None,
        },
{
    proof {
        reveal_strlit("\\");
        reveal_strlit("\"");
        reveal_strlit("\n");
        reveal_strlit("\t");
        reveal_strlit("\0");
        assert("\\"@ =~= seq!['\\']);
        assert("\""@ =~= seq!['"']);
        assert("\n"@ =~= seq!['\n']);
        assert("\t"@ =~= seq!['\t']);
        assert("\0"@ =~= seq!['\0']);
    }
    if str_is(value, "\\") {
        Some("\\")
    } else if str_is(value, "\"") {
        Some("\"")
    } else if str_is(value, "n") {
        Some("\n")
    } else if str_is(value, "t") {
        Some("\t")
    } else if str_is(value, "z") {
        Some("\0")
    } else {
        None
    }
}

fn to_string_piece(elem: &SyntaxNodeElement, text: &mut String) -> (r: Result<(), BlockParseError>)
    ensures
        match r {
            Ok(_) => string_piece(elem@) is Ok && final(text)@ == old(text)@ + string_piece(elem@)->Ok_0,
            Err(error) => string_piece(elem@) == Err::<Seq<char>, BlockParseErrorView>(error@),
        },
{
    match elem {
        SyntaxNodeElement::Node(escape) => {
            if escape.ast_reflection_style.is_reflectable() {
                match escape.get_leaf_child_at(0) {
                    None => Err(malformed_tree()),
                    Some(leaf) => match unescape(&leaf.value) {
                        Some(piece) => {
                            text.append(piece);
                            Ok(())
                        },
                        None => match escape.get_position() {
                            Some(pos) => Err(
                                BlockParseError::UnknownEscapeSequenceCharacter { pos },
                            ),
                            None => Err(malformed_tree()),
                        },
                    },
                }
            } else {
                assert(text@ + Seq::<char>::empty() =~= text@);
                Ok(())
            }
        },
        SyntaxNodeElement::Leaf(leaf) => {
            if leaf.ast_reflection_style.is_reflectable() {
                text.append(leaf.value.as_str());
            } else {
                assert(text@ + Seq::<char>::empty() =~= text@);
            }
            Ok(())
        },
    }
}

/// The text that a string literal stands for.
pub fn to_string_value(str_node: &SyntaxNode) -> (r: Result<String, BlockParseError>)
    ensures
        result_view(r) == string_value(str_node@.sub_elems),
{
    proof {
        lemma_node_children(*str_node);
    }
    let ghost elems = str_node@.sub_elems;
    let ghost total = string_value(elems);
    let mut text = String::new();
    let mut i: usize = 0;
    proof {
        assert(elems.skip(0) =~= elems);
        match string_value(elems) {
            Ok(rest) => {
                assert(text@ + rest =~= rest);
            },
            Err(_) => {},
        }
    }
    while i < str_node.sub_elems.len()
        invariant
            0 <= i <= str_node.sub_elems.len(),
            elems == str_node@.sub_elems,
            elems.len() == str_node.sub_elems@.len(),
            forall|k: int| 0 <= k < str_node.sub_elems@.len() ==> elems[k] == (#[trigger] str_node.sub_elems@[k])@,
            total == string_value(elems),
            total == match string_value(elems.skip(i as int)) {
                Ok(rest) => Ok::<Seq<char>, BlockParseErrorView>(text@ + rest),
                Err(error) => Err(error),
            },
        decreases str_node.sub_elems.len() - i,
    {
        proof {
            assert(elems.skip(i as int).drop_first() =~= elems.skip(i as int + 1));
            assert(elems.skip(i as int)[0] == elems[i as int]);
        }
        let ghost before = text@;
        match to_string_piece(&str_node.sub_elems[i], &mut text) {
            Ok(_) => {
                proof {
                    match string_value(elems.skip(i as int + 1)) {
                        Ok(rest) => {
                            let piece = string_piece(elems[i as int])->Ok_0;
                            assert(before + (piece + rest) =~= (before + piece) + rest);
                        },
                        Err(_) => {},
                    }
                }
            },
            Err(error) => {
                return Err(error);
            },
        }
        i = i + 1;
    }
    proof {
        assert(elems.skip(i as int) =~= Seq::<SyntaxNodeElementView>::empty());
        assert(text@ + Seq::<char>::empty() =~= text@);
    }
    Ok(text)
}

/// The parts of a chain identifier.
pub fn to_string_vec(chain: &SyntaxNode) -> (r: Option<Vec<String>>)
    ensures
        match r {
            Some(tokens) => chain_tokens(chain@.sub_elems) == Some(string_views(tokens@)),
            None => chain_tokens(chain@.sub_elems) is None,
        },
{
    proof {
        lemma_node_children(*chain);
    }
    let ghost elems = chain@.sub_elems;
    let ghost total = chain_tokens(elems);
    let mut tokens: Vec<String> = Vec::new();
    let mut i: usize = 0;
    proof {
        assert(elems.skip(0) =~= elems);
        match chain_tokens(elems) {
            Some(rest) => {
                assert(string_views(tokens@) + rest =~= rest);
            },
            None => {},
        }
    }
    while i < chain.sub_elems.len()
        invariant
            0 <= i <= chain.sub_elems.len(),
            elems == chain@.sub_elems,
            elems.len() == chain.sub_elems@.len(),
            forall|k: int| 0 <= k < chain.sub_elems@.len() ==> elems[k] == (#[trigger] chain.sub_elems@[k])@,
            total == chain_tokens(elems),
            total == match chain_tokens(elems.skip(i as int)) {
                Some(rest) => Some(string_views(tokens@) + rest),
                None => None,
            },
        decreases chain.sub_elems.len() - i,
    {
        proof {
            assert(elems.skip(i as int).drop_first() =~= elems.skip(i as int + 1));
            assert(elems.skip(i as int)[0] == elems[i as int]);
        }
        if chain.sub_elems[i].is_reflectable() {
            match &chain.sub_elems[i] {
                SyntaxNodeElement::Node(part) => {
                    let ghost before = string_views(tokens@);
                    let token = part.join_child_leaf_values();
                    tokens.push(token);
                    proof {
                        assert(string_views(tokens@) =~= before.push(token@));
                        match chain_tokens(elems.skip(i as int + 1)) {
                            Some(rest) => {
                                assert(before + (seq![token@] + rest) =~= before.push(token@)
                                    + rest);
                            },
                            None => {},
                        }
                    }
                },
                SyntaxNodeElement::Leaf(_) => {
                    return None;
                },
            }
        }
        i = i + 1;
    }
    proof {
        assert(elems.skip(i as int) =~= Seq::<SyntaxNodeElementView>::empty());
        assert(string_views(tokens@) + Seq::<Seq<char>>::empty() =~= string_views(tokens@));
    }
    Some(tokens)
}

/// The place of the first reflected leaf among the children of `node` that
/// holds the separator `sep`.
pub fn find_separator(node: &SyntaxNode, sep: &str) -> (r: Option<CharacterPosition>)
    ensures
        match r {
            Some(pos) => separator_position(node@.sub_elems, sep@) == Some(pos@),
            None => separator_position(node@.sub_elems, sep@) is None,
        },
{
    proof {
        lemma_node_children(*node);
    }
    let ghost elems = node@.sub_elems;
    let mut i: usize = 0;
    proof {
        assert(elems.skip(0) =~= elems);
    }
    while i < node.sub_elems.len()
        invariant
            0 <= i <= node.sub_elems.len(),
            elems == node@.sub_elems,
            elems.len() == node.sub_elems@.len(),
            forall|k: int| 0 <= k < node.sub_elems@.len() ==> elems[k] == (#[trigger] node.sub_elems@[k])@,
            separator_position(elems, sep@) == separator_position(elems.skip(i as int), sep@),
        decreases node.sub_elems.len() - i,
    {
        proof {
            assert(elems.skip(i as int).drop_first() =~= elems.skip(i as int + 1));
            assert(elems.skip(i as int)[0] == elems[i as int]);
        }
        match &node.sub_elems[i] {
            SyntaxNodeElement::Leaf(leaf) => {
                if leaf.ast_reflection_style.is_reflectable() && str_is(&leaf.value, sep) {
                    return Some(leaf.pos.clone());
                }
            },
            SyntaxNodeElement::Node(_) => {},
        }
        i = i + 1;
    }
    proof {
        assert(elems.skip(i as int) =~= Seq::<SyntaxNodeElementView>::empty());
    }
    None
}

/// A sequence that holds a single group is that group.
pub fn collapse(group: RuleGroup) -> (r: RuleGroup)
    ensures
        r@ == collapsed(group@),
{
    proof {
        lemma_group_children(group);
    }
    let single = match group.kind {
        RuleGroupKind::Sequence => group.sub_elems.len() == 1,
        _ => false,
    };
    if single {
        let holds_group = match &group.sub_elems[0] {
            RuleElement::Group(_) => true,
            RuleElement::Expression(_) => false,
        };
        if holds_group {
            let mut group = group;
            match group.sub_elems.pop() {
                Some(RuleElement::Group(inner)) => inner,
                _ => {
                    proof {
                        assert(false);
                    }
                    RuleGroup::new(RuleGroupKind::Sequence)
                },
            }
        } else {
            group
        }
    } else {
        group
    }
}

/// Puts a lowered choice under the qualifiers of the element that holds it.
pub fn decorate_group(group: RuleGroup, decorations: ElementDecorations) -> (r: Result<
    RuleGroup,
    BlockParseError,
>)
    ensures
        result_view(r) == decorated_group(group@, decorations@),
{
    let ElementDecorations { lookahead_kind, loop_count, occurrence, ast_reflection_style } =
        decorations;
    match occurrence {
        Some(count) => {
            let is_choice = match group.kind {
                RuleGroupKind::Choice => true,
                _ => false,
            };
            if is_choice {
                Err(
                    BlockParseError::UnexpectedToken {
                        pos: CharacterPosition::get_empty(),
                        unexpected_token: String::from_str(":"),
                        expected_str: String::from_str("','"),
                    },
                )
            } else {
                let shaped = RuleGroup {
                    kind: RuleGroupKind::RandomOrder(count),
                    sub_elems: group.sub_elems,
                    ast_reflection_style,
                    lookahead_kind,
                    loop_count,
                };
                proof {
                    lemma_group_children(group);
                    lemma_group_children(shaped);
                }
                Ok(shaped)
            }
        },
        None => {
            let inner = collapse(group);
            let shaped = RuleGroup {
                kind: inner.kind,
                sub_elems: inner.sub_elems,
                ast_reflection_style,
                lookahead_kind,
                loop_count,
            };
            proof {
                lemma_group_children(inner);
                lemma_group_children(shaped);
            }
            Ok(shaped)
        },
    }
}

/// Puts a lowered expression under the qualifiers of the element that
/// holds it.
pub fn decorate_expr(expr: RuleExpression, decorations: ElementDecorations) -> (r: RuleExpression)
    ensures
        r@ == decorated_expr(expr@, decorations@),
{
    let ElementDecorations { lookahead_kind, loop_count, occurrence, ast_reflection_style } =
        decorations;
    RuleExpression {
        pos: expr.pos,
        kind: expr.kind,
        value: expr.value,
        ast_reflection_style,
        lookahead_kind,
        loop_count,
    }
}

fn to_positioned(node: &SyntaxNode, kind: RuleExpressionKind, value: String) -> (r: Result<
    RuleExpression,
    BlockParseError,
>)
    ensures
        result_view(r) == positioned(node@, kind@, value@).value,
        positioned(node@, kind@, value@).refs.len() == 0,
        positioned(node@, kind@, value@).warnings.len() == 0,
{
    match node.get_position() {
        Some(pos) => Ok(RuleExpression::new(pos, kind, value)),
        None => Err(malformed_tree()),
    }
}

impl BlockParser {
    /// Lowers a choice node: its alternatives become the children of a
    /// group whose kind follows from the separators between them.
    pub fn to_rule_choice_elem(
        scope: &Scope,
        appeared: &mut AppearedIds,
        cons: &mut Console,
        choice_node: &SyntaxNode,
    ) -> (r: Result<RuleGroup, BlockParseError>)
        requires
            scope.wf(),
            old(appeared).wf(),
        ensures
            final(appeared).wf(),
            carried_out(
                lower_choice(choice_node@, scope@),
                result_view(r),
                old(appeared)@,
                final(appeared)@,
                old(cons)@,
                final(cons)@,
            ),
        decreases choice_node,
    {
        proof {
            lemma_node_children(*choice_node);
        }
        let ghost elems = choice_node@.sub_elems;
        let ghost whole = lower_choice(choice_node@, scope@);
        let colon = find_separator(choice_node, ":");
        let comma = find_separator(choice_node, ",");
        if colon.is_some() {
            match comma {
                Some(pos) => {
                    proof {
                        lemma_carried_out_quietly(whole, appeared@, cons@);
                    }
                    return Err(
                        BlockParseError::UnexpectedToken {
                            pos,
                            unexpected_token: String::from_str(","),
                            expected_str: String::from_str("':'"),
                        },
                    );
                },
                None => {},
            }
        }
        let ghost total = lower_alternatives(elems, scope@);
        let ghost mut refs: Seq<(Seq<char>, CharacterPositionView)> = Seq::empty();
        let ghost mut warnings: Seq<BlockParseErrorView> = Seq::empty();
        let mut children: Vec<RuleElement> = Vec::new();
        let mut i: usize = 0;
        proof {
            assert(elems.skip(0) =~= elems);
            assert(views(children@) =~= Seq::<RuleElementView>::empty());
            lemma_prefixed_start(total);
            assert(cons@ + warnings =~= cons@);
        }
        while i < choice_node.sub_elems.len()
            invariant
                0 <= i <= choice_node.sub_elems.len(),
                scope.wf(),
                appeared.wf(),
                elems == choice_node@.sub_elems,
                elems.len() == choice_node.sub_elems@.len(),
                forall|k: int| 0 <= k < choice_node.sub_elems@.len() ==> elems[k] == (#[trigger] choice_node.sub_elems@[k])@,
                !(separator_position(elems, ":"@) is Some && separator_position(elems, ","@) is Some),
                total == lower_alternatives(elems, scope@),
                total == prefixed(
                    views(children@),
                    refs,
                    warnings,
                    lower_alternatives(elems.skip(i as int), scope@),
                ),
                appeared@ == recorded(old(appeared)@, refs),
                cons@ == old(cons)@ + warnings,
            decreases choice_node.sub_elems.len() - i,
        {
            proof {
                assert(elems.skip(i as int).drop_first() =~= elems.skip(i as int + 1));
                assert(elems.skip(i as int)[0] == elems[i as int]);
            }
            match &choice_node.sub_elems[i] {
                SyntaxNodeElement::Node(seq_node) => {
                    if seq_node.is_named(".Rule.Seq") {
                        let ghost first = lower_seq(seq_node@, scope@);
                        let ghost first_elem = first.with(
                            match first.value {
                                Ok(group) => Ok(RuleElementView::Group(group)),
                                Err(error) => Err(error),
                            },
                        );
                        let ghost rest = lower_alternatives(elems.skip(i as int + 1), scope@);
                        let ghost appeared_before = appeared@;
                        let ghost cons_before = cons@;
                        let ghost children_before = views(children@);
                        proof {
                            lemma_prefixed_chain(children_before, refs, warnings, first_elem, rest);
                        }
                        match Self::to_seq_elem(scope, appeared, cons, seq_node) {
                            Ok(group) => {
                                proof {
                                    lemma_carried_out_in_turn(
                                        Lowered::<int> { value: Ok(0), refs, warnings },
                                        first,
                                        old(appeared)@,
                                        appeared_before,
                                        appeared@,
                                        old(cons)@,
                                        cons_before,
                                        cons@,
                                    );
                                    lemma_views_push(children@, RuleElement::Group(group));
                                    refs = refs + first.refs;
                                    warnings = warnings + first.warnings;
                                }
                                children.push(RuleElement::Group(group));
                            },
                            Err(error) => {
                                proof {
                                    lemma_carried_out_in_turn(
                                        Lowered::<int> { value: Ok(0), refs, warnings },
                                        first,
                                        old(appeared)@,
                                        appeared_before,
                                        appeared@,
                                        old(cons)@,
                                        cons_before,
                                        cons@,
                                    );
                                }
                                return Err(error);
                            },
                        }
                    }
                },
                SyntaxNodeElement::Leaf(_) => {},
            }
            i = i + 1;
        }
        proof {
            assert(elems.skip(i as int) =~= Seq::<SyntaxNodeElementView>::empty());
            lemma_prefixed_end(views(children@), refs, warnings);
        }
        if children.len() == 0 {
            return Err(
                BlockParseError::NoChoiceOrExpressionContent { pos: CharacterPosition::get_empty() },
            );
        }
        let kind = if colon.is_some() {
            RuleGroupKind::Choice
        } else if comma.is_some() {
            RuleGroupKind::RandomOrder(RuleElementLoopCount::get_single_loop())
        } else {
            RuleGroupKind::Sequence
        };
        Ok(RuleGroup::with_children(kind, children))
    }

    /// Lowers a sequence node: its elements become the children of a
    /// sequence group.
    pub fn to_seq_elem(
        scope: &Scope,
        appeared: &mut AppearedIds,
        cons: &mut Console,
        seq_node: &SyntaxNode,
    ) -> (r: Result<RuleGroup, BlockParseError>)
        requires
            scope.wf(),
            old(appeared).wf(),
        ensures
            final(appeared).wf(),
            carried_out(
                lower_seq(seq_node@, scope@),
                result_view(r),
                old(appeared)@,
                final(appeared)@,
                old(cons)@,
                final(cons)@,
            ),
        decreases seq_node,
    {
        proof {
            lemma_node_children(*seq_node);
        }
        let ghost elems = seq_node@.sub_elems;
        let ghost total = lower_seq_elems(elems, scope@);
        let ghost mut refs: Seq<(Seq<char>, CharacterPositionView)> = Seq::empty();
        let ghost mut warnings: Seq<BlockParseErrorView> = Seq::empty();
        let mut children: Vec<RuleElement> = Vec::new();
        let mut i: usize = 0;
        proof {
            assert(elems.skip(0) =~= elems);
            assert(views(children@) =~= Seq::<RuleElementView>::empty());
            lemma_prefixed_start(total);
            assert(cons@ + warnings =~= cons@);
        }
        while i < seq_node.sub_elems.len()
            invariant
                0 <= i <= seq_node.sub_elems.len(),
                scope.wf(),
                appeared.wf(),
                elems == seq_node@.sub_elems,
                elems.len() == seq_node.sub_elems@.len(),
                forall|k: int| 0 <= k < seq_node.sub_elems@.len() ==> elems[k] == (#[trigger] seq_node.sub_elems@[k])@,
                total == lower_seq_elems(elems, scope@),
                total == prefixed(
                    views(children@),
                    refs,
                    warnings,
                    lower_seq_elems(elems.skip(i as int), scope@),
                ),
                appeared@ == recorded(old(appeared)@, refs),
                cons@ == old(cons)@ + warnings,
            decreases seq_node.sub_elems.len() - i,
        {
            proof {
                assert(elems.skip(i as int).drop_first() =~= elems.skip(i as int + 1));
                assert(elems.skip(i as int)[0] == elems[i as int]);
            }
            if seq_node.sub_elems[i].is_reflectable() {
                match &seq_node.sub_elems[i] {
                    SyntaxNodeElement::Node(elem_node) => {
                        let ghost first = lower_seq_elem(elem_node@, scope@);
                        let ghost rest = lower_seq_elems(elems.skip(i as int + 1), scope@);
                        let ghost appeared_before = appeared@;
                        let ghost cons_before = cons@;
                        proof {
                            lemma_prefixed_chain(views(children@), refs, warnings, first, rest);
                        }
                        match Self::to_rule_element(scope, appeared, cons, elem_node) {
                            Ok(elem) => {
                                proof {
                                    lemma_carried_out_in_turn(
                                        Lowered::<int> { value: Ok(0), refs, warnings },
                                        first,
                                        old(appeared)@,
                                        appeared_before,
                                        appeared@,
                                        old(cons)@,
                                        cons_before,
                                        cons@,
                                    );
                                    lemma_views_push(children@, elem);
                                    refs = refs + first.refs;
                                    warnings = warnings + first.warnings;
                                }
                                children.push(elem);
                            },
                            Err(error) => {
                                proof {
                                    lemma_carried_out_in_turn(
                                        Lowered::<int> { value: Ok(0), refs, warnings },
                                        first,
                                        old(appeared)@,
                                        appeared_before,
                                        appeared@,
                                        old(cons)@,
                                        cons_before,
                                        cons@,
                                    );
                                }
                                return Err(error);
                            },
                        }
                    },
                    SyntaxNodeElement::Leaf(_) => {
                        proof {
                            assert(refs + Seq::<(Seq<char>, CharacterPositionView)>::empty()
                                =~= refs);
                            assert(warnings + Seq::<BlockParseErrorView>::empty() =~= warnings);
                        }
                        return Err(malformed_tree());
                    },
                }
            }
            i = i + 1;
        }
        proof {
            assert(elems.skip(i as int) =~= Seq::<SyntaxNodeElementView>::empty());
            lemma_prefixed_end(views(children@), refs, warnings);
        }
        Ok(RuleGroup::with_children(RuleGroupKind::Sequence, children))
    }

    /// Lowers one element node of a sequence: its body under its
    /// qualifiers.
    pub fn to_rule_element(
        scope: &Scope,
        appeared: &mut AppearedIds,
        cons: &mut Console,
        elem_node: &SyntaxNode,
    ) -> (r: Result<RuleElement, BlockParseError>)
        requires
            scope.wf(),
            old(appeared).wf(),
        ensures
            final(appeared).wf(),
            carried_out(
                lower_seq_elem(elem_node@, scope@),
                result_view(r),
                old(appeared)@,
                final(appeared)@,
                old(cons)@,
                final(cons)@,
            ),
        decreases elem_node,
    {
        let ghost whole = lower_seq_elem(elem_node@, scope@);
        let decorations = match to_decorations(elem_node) {
            Ok(decorations) => decorations,
            Err(error) => {
                proof {
                    lemma_carried_out_quietly(whole, appeared@, cons@);
                }
                return Err(error);
            },
        };
        match elem_node.find_first_child_node_of(".Rule.Choice", ".Rule.Expr") {
            None => {
                proof {
                    lemma_carried_out_quietly(whole, appeared@, cons@);
                }
                Err(malformed_tree())
            },
            Some(body) => {
                if body.is_named(".Rule.Choice") {
                    match body.get_node_child_at(0) {
                        None => {
                            proof {
                                lemma_carried_out_quietly(whole, appeared@, cons@);
                            }
                            Err(malformed_tree())
                        },
                        Some(choice) => {
                            match Self::to_rule_choice_elem(scope, appeared, cons, choice) {
                                Err(error) => Err(error),
                                Ok(group) => match decorate_group(group, decorations) {
                                    Ok(shaped) => Ok(RuleElement::Group(shaped)),
                                    Err(error) => Err(error),
                                },
                            }
                        },
                    }
                } else if decorations.occurrence.is_some() {
                    proof {
                        lemma_carried_out_quietly(whole, appeared@, cons@);
                    }
                    Err(
                        BlockParseError::UnexpectedToken {
                            pos: CharacterPosition::get_empty(),
                            unexpected_token: String::from_str("^"),
                            expected_str: String::from_str("nothing"),
                        },
                    )
                } else {
                    match Self::to_rule_expr_elem(scope, appeared, cons, body) {
                        Ok(expr) => Ok(RuleElement::Expression(decorate_expr(expr, decorations))),
                        Err(error) => Err(error),
                    }
                }
            },
        }
    }

    /// Finds the rule that an identifier or a call names and records it as
    /// referenced.
    pub fn to_call_target(
        scope: &Scope,
        appeared: &mut AppearedIds,
        cons: &mut Console,
        node: &SyntaxNode,
        primitive_allowed: bool,
    ) -> (r: Result<(CharacterPosition, String), BlockParseError>)
        requires
            scope.wf(),
            old(appeared).wf(),
        ensures
            final(appeared).wf(),
            carried_out(
                call_target(node@, primitive_allowed, scope@),
                result_view(r),
                old(appeared)@,
                final(appeared)@,
                old(cons)@,
                final(cons)@,
            ),
    {
        let ghost whole = call_target(node@, primitive_allowed, scope@);
        let chain = match node.get_node_child_at(0) {
            Some(chain) => chain,
            None => {
                proof {
                    lemma_carried_out_quietly(whole, appeared@, cons@);
                }
                return Err(malformed_tree());
            },
        };
        let first = match chain.get_node_child_at(0) {
            Some(first) => first,
            None => {
                proof {
                    lemma_carried_out_quietly(whole, appeared@, cons@);
                }
                return Err(malformed_tree());
            },
        };
        let pos = match first.get_position() {
            Some(pos) => pos,
            None => {
                proof {
                    lemma_carried_out_quietly(whole, appeared@, cons@);
                }
                return Err(malformed_tree());
            },
        };
        let tokens = match to_string_vec(chain) {
            Some(tokens) => tokens,
            None => {
                proof {
                    lemma_carried_out_quietly(whole, appeared@, cons@);
                }
                return Err(malformed_tree());
            },
        };
        if primitive_allowed {
            let joined = join_dotted(&tokens);
            if str_is(&joined, "JOIN") {
                proof {
                    lemma_carried_out_quietly(whole, appeared@, cons@);
                }
                return Ok((pos, joined));
            }
        }
        match to_rule_id(cons, &pos, &tokens, scope) {
            Err(error) => {
                Err(error)
            },
            Ok(id) => {
                proof {
                    lemma_recorded_one(appeared@, id@, pos@);
                }
                appeared.insert_new(id.clone(), pos.clone());
                Ok((pos, id))
            },
        }
    }

    /// Lowers the arguments of a call, each as a choice of its own.
    pub fn to_call_args(
        scope: &Scope,
        appeared: &mut AppearedIds,
        cons: &mut Console,
        call_node: &SyntaxNode,
    ) -> (r: Result<Vec<RuleGroup>, BlockParseError>)
        requires
            scope.wf(),
            old(appeared).wf(),
        ensures
            final(appeared).wf(),
            carried_out(
                lower_args(call_node@.sub_elems, scope@),
                match r {
                    Ok(groups) => Ok(views(groups@)),
                    Err(error) => Err(error@),
                },
                old(appeared)@,
                final(appeared)@,
                old(cons)@,
                final(cons)@,
            ),
        decreases call_node,
    {
        proof {
            lemma_node_children(*call_node);
        }
        let ghost elems = call_node@.sub_elems;
        let ghost total = lower_args(elems, scope@);
        let ghost mut refs: Seq<(Seq<char>, CharacterPositionView)> = Seq::empty();
        let ghost mut warnings: Seq<BlockParseErrorView> = Seq::empty();
        let mut groups: Vec<RuleGroup> = Vec::new();
        let mut i: usize = 0;
        proof {
            assert(elems.skip(0) =~= elems);
            assert(views(groups@) =~= Seq::<RuleGroupView>::empty());
            lemma_prefixed_start(total);
            assert(cons@ + warnings =~= cons@);
        }
        while i < call_node.sub_elems.len()
            invariant
                0 <= i <= call_node.sub_elems.len(),
                scope.wf(),
                appeared.wf(),
                elems == call_node@.sub_elems,
                elems.len() == call_node.sub_elems@.len(),
                forall|k: int| 0 <= k < call_node.sub_elems@.len() ==> elems[k] == (#[trigger] call_node.sub_elems@[k])@,
                total == lower_args(elems, scope@),
                total == prefixed(
                    views(groups@),
                    refs,
                    warnings,
                    lower_args(elems.skip(i as int), scope@),
                ),
                appeared@ == recorded(old(appeared)@, refs),
                cons@ == old(cons)@ + warnings,
            decreases call_node.sub_elems.len() - i,
        {
            proof {
                assert(elems.skip(i as int).drop_first() =~= elems.skip(i as int + 1));
                assert(elems.skip(i as int)[0] == elems[i as int]);
            }
            match &call_node.sub_elems[i] {
                SyntaxNodeElement::Node(arg) => {
                    if arg.is_named(".Rule.InstantPureChoice") {
                        let ghost first = lower_choice(arg@, scope@);
                        let ghost first_group = first.with(
                            match first.value {
                                Ok(group) => Ok(collapsed(group)),
                                Err(error) => Err(error),
                            },
                        );
                        let ghost rest = lower_args(elems.skip(i as int + 1), scope@);
                        let ghost appeared_before = appeared@;
                        let ghost cons_before = cons@;
                        proof {
                            lemma_prefixed_chain(views(groups@), refs, warnings, first_group, rest);
                        }
                        match Self::to_rule_choice_elem(scope, appeared, cons, arg) {
                            Ok(group) => {
                                let inner = collapse(group);
                                proof {
                                    lemma_carried_out_in_turn(
                                        Lowered::<int> { value: Ok(0), refs, warnings },
                                        first,
                                        old(appeared)@,
                                        appeared_before,
                                        appeared@,
                                        old(cons)@,
                                        cons_before,
                                        cons@,
                                    );
                                    lemma_views_push(groups@, inner);
                                    refs = refs + first.refs;
                                    warnings = warnings + first.warnings;
                                }
                                groups.push(inner);
                            },
                            Err(error) => {
                                proof {
                                    lemma_carried_out_in_turn(
                                        Lowered::<int> { value: Ok(0), refs, warnings },
                                        first,
                                        old(appeared)@,
                                        appeared_before,
                                        appeared@,
                                        old(cons)@,
                                        cons_before,
                                        cons@,
                                    );
                                }
                                return Err(error);
                            },
                        }
                    }
                },
                SyntaxNodeElement::Leaf(_) => {},
            }
            i = i + 1;
        }
        proof {
            assert(elems.skip(i as int) =~= Seq::<SyntaxNodeElementView>::empty());
            lemma_prefixed_end(views(groups@), refs, warnings);
        }
        Ok(groups)
    }

    /// Lowers an expression node.
    pub fn to_rule_expr_elem(
        scope: &Scope,
        appeared: &mut AppearedIds,
        cons: &mut Console,
        expr_node: &SyntaxNode,
    ) -> (r: Result<RuleExpression, BlockParseError>)
        requires
            scope.wf(),
            old(appeared).wf(),
        ensures
            final(appeared).wf(),
            carried_out(
                lower_expr(expr_node@, scope@),
                result_view(r),
                old(appeared)@,
                final(appeared)@,
                old(cons)@,
                final(cons)@,
            ),
        decreases expr_node,
    {
        let ghost whole = lower_expr(expr_node@, scope@);
        let child = match expr_node.get_node_child_at(0) {
            Some(child) => child,
            None => {
                proof {
                    lemma_carried_out_quietly(whole, appeared@, cons@);
                }
                return Err(malformed_tree());
            },
        };
        let name = match &child.ast_reflection_style {
            ASTReflectionStyle::Reflection(name) => name,
            _ => {
                proof {
                    lemma_carried_out_quietly(whole, appeared@, cons@);
                }
                return Err(malformed_tree());
            },
        };
        if str_is(name, ".Rule.ArgID") {
            proof {
                lemma_carried_out_quietly(whole, appeared@, cons@);
            }
            to_positioned(child, RuleExpressionKind::ArgID, child.join_child_leaf_values())
        } else if str_is(name, ".Rule.CharClass") {
            proof {
                lemma_carried_out_quietly(whole, appeared@, cons@);
            }
            let mut value = String::from_str("[");
            let inner = child.join_child_leaf_values();
            value.append(inner.as_str());
            value.append("]");
            to_positioned(child, RuleExpressionKind::CharClass, value)
        } else if str_is(name, ".Rule.Generics") || str_is(name, ".Rule.Func") {
            let is_func = str_is(name, ".Rule.Func");
            let ghost args_low = lower_args(child@.sub_elems, scope@);
            let ghost target_low = call_target(child@, is_func, scope@);
            let ghost appeared_start = appeared@;
            let ghost cons_start = cons@;
            let groups = match Self::to_call_args(scope, appeared, cons, child) {
                Ok(groups) => groups,
                Err(error) => {
                    return Err(error);
                },
            };
            let ghost appeared_mid = appeared@;
            let ghost cons_mid = cons@;
            let target = Self::to_call_target(scope, appeared, cons, child, is_func);
            proof {
                lemma_carried_out_in_turn(
                    args_low,
                    target_low,
                    appeared_start,
                    appeared_mid,
                    appeared@,
                    cons_start,
                    cons_mid,
                    cons@,
                );
            }
            match target {
                Ok((pos, id)) => {
                    let kind = if is_func {
                        RuleExpressionKind::Func(groups)
                    } else {
                        RuleExpressionKind::Generics(groups)
                    };
                    proof {
                        lemma_kind_args(kind);
                    }
                    Ok(RuleExpression::new(pos, kind, id))
                },
                Err(error) => Err(error),
            }
        } else if str_is(name, ".Rule.ID") {
            match Self::to_call_target(scope, appeared, cons, child, false) {
                Ok((pos, id)) => Ok(RuleExpression::new(pos, RuleExpressionKind::ID, id)),
                Err(error) => Err(error),
            }
        } else if str_is(name, ".Rule.Str") {
            proof {
                lemma_carried_out_quietly(whole, appeared@, cons@);
            }
            match to_string_value(child) {
                Ok(text) => Ok(
                    RuleExpression::new(
                        CharacterPosition::get_empty(),
                        RuleExpressionKind::String,
                        text,
                    ),
                ),
                Err(error) => Err(error),
            }
        } else if str_is(name, ".Rule.Wildcard") {
            proof {
                lemma_carried_out_quietly(whole, appeared@, cons@);
            }
            to_positioned(child, RuleExpressionKind::Wildcard, String::from_str("."))
        } else {
            proof {
                lemma_carried_out_quietly(whole, appeared@, cons@);
            }
            let mut msg = String::from_str("unknown expression name '");
            msg.append(name.as_str());
            msg.append("'");
            Err(BlockParseError::InternalError { msg })
        }
    }
}

} // verus!
