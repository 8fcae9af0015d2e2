//! The invariant of the rule catalog: every rule that a rule body names
//! stands in the catalog.

use vstd::prelude::*;
use crate::block::{BlockCommandView, BlockView};
use crate::blockparser::{
    after_file, after_files, aliases_of, lemma_catalog_is_closed, rule_map_of, FCPEGFileView,
    RunProgress,
};
use crate::catalog::{
    catalog_rules, rules_after_blocks, rules_after_commands, rules_after_files, RuleMapView,
};
use crate::command::{
    lower_block, lower_block_body, lower_blocks, lower_body, lower_command, lower_commands,
    lower_define, lower_file, lower_parameters, rule_root, synthetic_main, BlockProgress,
    FileProgress,
};
use crate::element::{
    call_target, chain, collapsed, decorations_of, is_primitive_function, lower_alternatives,
    lower_args, lower_choice, lower_expr, lower_seq, lower_seq_elem, lower_seq_elems,
};
use crate::position::CharacterPositionView;
use crate::resolve::{recorded, Lowered, ScopeView};
use crate::string_map::{has_key, lemma_put_lookup, put};
use crate::text::has_string;
use crate::rule::{
    ASTReflectionStyleView, RuleElementView, RuleExpressionKindView, RuleExpressionView,
    RuleGroupView, RuleView,
};
use crate::tree::{
    child_named, child_named_either, is_reflectable, leaf_values, node_child_at, position_of,
    SyntaxNodeElementView, SyntaxNodeView,
};

verus! {

/// Whether an expression names a rule: an identifier does, a call with
/// generic arguments does, and a call with function arguments does unless
/// it calls a built-in function.
pub open spec fn names_rule(expr: RuleExpressionView) -> bool {
    expr.kind is ID || expr.kind is Generics || (expr.kind is Func && !is_primitive_function(
        expr.value,
    ))
}

/// Whether every rule that the element names, at any depth, is one of
/// `known`.
pub open spec fn element_within(elem: RuleElementView, known: Set<Seq<char>>) -> bool
    decreases elem,
{
    match elem {
        RuleElementView::Group(group) => group_within(group, known),
        RuleElementView::Expression(expr) => {
            &&& names_rule(expr) ==> known.contains(expr.value)
            &&& match expr.kind {
                RuleExpressionKindView::Func(args) => forall|i: int|
                    0 <= i < args.len() ==> group_within(#[trigger] args[i], known),
                RuleExpressionKindView::Generics(args) => forall|i: int|
                    0 <= i < args.len() ==> group_within(#[trigger] args[i], known),
                _ => true,
            }
        },
    }
}

/// The same of a group.
pub open spec fn group_within(group: RuleGroupView, known: Set<Seq<char>>) -> bool
    decreases group,
{
    forall|i: int|
        0 <= i < group.sub_elems.len() ==> element_within(#[trigger] group.sub_elems[i], known)
}

/// The same of every element of a list.
pub open spec fn elements_within(elems: Seq<RuleElementView>, known: Set<Seq<char>>) -> bool {
    forall|i: int| 0 <= i < elems.len() ==> element_within(#[trigger] elems[i], known)
}

/// The same of every group of a list.
pub open spec fn groups_within(groups: Seq<RuleGroupView>, known: Set<Seq<char>>) -> bool {
    forall|i: int| 0 <= i < groups.len() ==> group_within(#[trigger] groups[i], known)
}

/// The identifiers of a run of references.
pub open spec fn ref_ids(refs: Seq<(Seq<char>, CharacterPositionView)>) -> Set<Seq<char>> {
    Set::new(|id: Seq<char>| exists|i: int| 0 <= i < refs.len() && (#[trigger] refs[i]).0 == id)
}

/// What holds within a set holds within every larger set.
pub proof fn lemma_element_within_more(elem: RuleElementView, known: Set<Seq<char>>, more: Set<Seq<char>>)
    requires
        element_within(elem, known),
        known.subset_of(more),
    ensures
        element_within(elem, more),
    decreases elem,
{
    match elem {
        RuleElementView::Group(group) => {
            lemma_group_within_more(group, known, more);
        },
        RuleElementView::Expression(expr) => {
            match expr.kind {
                RuleExpressionKindView::Func(args) => {
                    assert forall|i: int| 0 <= i < args.len() implies group_within(
                        #[trigger] args[i],
                        more,
                    ) by {
                        lemma_group_within_more(args[i], known, more);
                    }
                },
                RuleExpressionKindView::Generics(args) => {
                    assert forall|i: int| 0 <= i < args.len() implies group_within(
                        #[trigger] args[i],
                        more,
                    ) by {
                        lemma_group_within_more(args[i], known, more);
                    }
                },
                _ => {},
            }
        },
    }
}

/// The same of a group.
pub proof fn lemma_group_within_more(group: RuleGroupView, known: Set<Seq<char>>, more: Set<Seq<char>>)
    requires
        group_within(group, known),
        known.subset_of(more),
    ensures
        group_within(group, more),
    decreases group,
{
    assert forall|i: int| 0 <= i < group.sub_elems.len() implies element_within(
        #[trigger] group.sub_elems[i],
        more,
    ) by {
        lemma_element_within_more(group.sub_elems[i], known, more);
    }
}

/// The same of a list of elements.
pub proof fn lemma_elements_within_more(
    elems: Seq<RuleElementView>,
    known: Set<Seq<char>>,
    more: Set<Seq<char>>,
)
    requires
        elements_within(elems, known),
        known.subset_of(more),
    ensures
        elements_within(elems, more),
{
    assert forall|i: int| 0 <= i < elems.len() implies element_within(#[trigger] elems[i], more) by {
        lemma_element_within_more(elems[i], known, more);
    }
}

/// The same of a list of groups.
pub proof fn lemma_groups_within_more(
    groups: Seq<RuleGroupView>,
    known: Set<Seq<char>>,
    more: Set<Seq<char>>,
)
    requires
        groups_within(groups, known),
        known.subset_of(more),
    ensures
        groups_within(groups, more),
{
    assert forall|i: int| 0 <= i < groups.len() implies group_within(#[trigger] groups[i], more) by {
        lemma_group_within_more(groups[i], known, more);
    }
}

/// The identifiers of two runs of references, one after the other, are
/// those of both.
pub proof fn lemma_ref_ids_concat(
    first: Seq<(Seq<char>, CharacterPositionView)>,
    second: Seq<(Seq<char>, CharacterPositionView)>,
)
    ensures
        ref_ids(first).subset_of(ref_ids(first + second)),
        ref_ids(second).subset_of(ref_ids(first + second)),
        ref_ids(first + second) == ref_ids(first).union(ref_ids(second)),
{
    let both = first + second;
    assert forall|id: Seq<char>| ref_ids(first).contains(id) implies ref_ids(both).contains(id) by {
        let i = choose|i: int| 0 <= i < first.len() && (#[trigger] first[i]).0 == id;
        assert(both[i].0 == id);
    }
    assert forall|id: Seq<char>| ref_ids(second).contains(id) implies ref_ids(both).contains(id) by {
        let i = choose|i: int| 0 <= i < second.len() && (#[trigger] second[i]).0 == id;
        assert(both[first.len() + i].0 == id);
    }
    assert forall|id: Seq<char>| ref_ids(both).contains(id) implies ref_ids(first).union(
        ref_ids(second),
    ).contains(id) by {
        let i = choose|i: int| 0 <= i < both.len() && (#[trigger] both[i]).0 == id;
        if i < first.len() {
            assert(first[i].0 == id);
        } else {
            assert(second[i - first.len()].0 == id);
        }
    }
    assert(ref_ids(both) =~= ref_ids(first).union(ref_ids(second)));
}

/// A list of outcomes that are each within their own references is, after
/// chaining, within the references of the chain.
proof fn lemma_chain_within(first: Lowered<RuleElementView>, rest: Lowered<Seq<RuleElementView>>)
    requires
        first.value matches Ok(elem) ==> element_within(elem, ref_ids(first.refs)),
        rest.value matches Ok(elems) ==> elements_within(elems, ref_ids(rest.refs)),
    ensures
        chain(first, rest).value matches Ok(elems) ==> elements_within(
            elems,
            ref_ids(chain(first, rest).refs),
        ),
{
    match chain(first, rest).value {
        Ok(elems) => {
            let all = ref_ids(first.refs + rest.refs);
            lemma_ref_ids_concat(first.refs, rest.refs);
            let head = first.value->Ok_0;
            let tail = rest.value->Ok_0;
            lemma_element_within_more(head, ref_ids(first.refs), all);
            lemma_elements_within_more(tail, ref_ids(rest.refs), all);
            assert forall|i: int| 0 <= i < elems.len() implies element_within(
                #[trigger] elems[i],
                all,
            ) by {
                if i > 0 {
                    assert(elems[i] == tail[i - 1]);
                }
            }
        },
        Err(_) => {},
    }
}

proof fn lemma_chain_groups_within(first: Lowered<RuleGroupView>, rest: Lowered<Seq<RuleGroupView>>)
    requires
        first.value matches Ok(group) ==> group_within(group, ref_ids(first.refs)),
        rest.value matches Ok(groups) ==> groups_within(groups, ref_ids(rest.refs)),
    ensures
        chain(first, rest).value matches Ok(groups) ==> groups_within(
            groups,
            ref_ids(chain(first, rest).refs),
        ),
{
    match chain(first, rest).value {
        Ok(groups) => {
            let all = ref_ids(first.refs + rest.refs);
            lemma_ref_ids_concat(first.refs, rest.refs);
            let head = first.value->Ok_0;
            let tail = rest.value->Ok_0;
            lemma_group_within_more(head, ref_ids(first.refs), all);
            lemma_groups_within_more(tail, ref_ids(rest.refs), all);
            assert forall|i: int| 0 <= i < groups.len() implies group_within(
                #[trigger] groups[i],
                all,
            ) by {
                if i > 0 {
                    assert(groups[i] == tail[i - 1]);
                }
            }
        },
        Err(_) => {},
    }
}

/// A collapsed group names no rule that the group did not name.
pub proof fn lemma_collapsed_within(group: RuleGroupView, known: Set<Seq<char>>)
    requires
        group_within(group, known),
    ensures
        group_within(collapsed(group), known),
{
    if group.kind is Sequence && group.sub_elems.len() == 1 {
        assert(element_within(group.sub_elems[0], known));
    }
}

/// The rule that an identifier or a call names is among the references of
/// finding it.
proof fn lemma_call_target_recorded(node: SyntaxNodeView, primitive_allowed: bool, scope: ScopeView)
    ensures
        call_target(node, primitive_allowed, scope).value matches Ok(found) ==> (ref_ids(
            call_target(node, primitive_allowed, scope).refs,
        ).contains(found.1) || (primitive_allowed && is_primitive_function(found.1))),
{
    let target = call_target(node, primitive_allowed, scope);
    match target.value {
        Ok(found) => {
            if !(primitive_allowed && is_primitive_function(found.1)) {
                assert(target.refs.len() == 1);
                assert(target.refs[0].0 == found.1);
            }
        },
        Err(_) => {},
    }
}

/// Every rule that a lowered choice names is among the references of its
/// lowering.
pub proof fn lemma_choice_within(node: SyntaxNodeView, scope: ScopeView)
    ensures
        lower_choice(node, scope).value matches Ok(group) ==> group_within(
            group,
            ref_ids(lower_choice(node, scope).refs),
        ),
    decreases node, 1int,
{
    lemma_alternatives_within(node.sub_elems, scope);
}

proof fn lemma_alternatives_within(elems: Seq<SyntaxNodeElementView>, scope: ScopeView)
    ensures
        lower_alternatives(elems, scope).value matches Ok(children) ==> elements_within(
            children,
            ref_ids(lower_alternatives(elems, scope).refs),
        ),
    decreases elems, 0int,
{
    if elems.len() > 0 {
        lemma_alternatives_within(elems.drop_first(), scope);
        match elems[0] {
            SyntaxNodeElementView::Node(seq_node) => {
                if seq_node.ast_reflection_style == ASTReflectionStyleView::Reflection(
                    ".Rule.Seq"@,
                ) {
                    lemma_seq_within(seq_node, scope);
                    let first = lower_seq(seq_node, scope);
                    lemma_chain_within(
                        first.with(
                            match first.value {
                                Ok(group) => Ok(RuleElementView::Group(group)),
                                Err(error) => Err(error),
                            },
                        ),
                        lower_alternatives(elems.drop_first(), scope),
                    );
                }
            },
            SyntaxNodeElementView::Leaf(_) => {},
        }
    }
}

proof fn lemma_seq_within(node: SyntaxNodeView, scope: ScopeView)
    ensures
        lower_seq(node, scope).value matches Ok(group) ==> group_within(
            group,
            ref_ids(lower_seq(node, scope).refs),
        ),
    decreases node, 1int,
{
    lemma_seq_elems_within(node.sub_elems, scope);
}

proof fn lemma_seq_elems_within(elems: Seq<SyntaxNodeElementView>, scope: ScopeView)
    ensures
        lower_seq_elems(elems, scope).value matches Ok(children) ==> elements_within(
            children,
            ref_ids(lower_seq_elems(elems, scope).refs),
        ),
    decreases elems, 0int,
{
    if elems.len() > 0 {
        lemma_seq_elems_within(elems.drop_first(), scope);
        if is_reflectable(elems[0]) {
            match elems[0] {
                SyntaxNodeElementView::Node(elem) => {
                    lemma_seq_elem_within(elem, scope);
                    lemma_chain_within(
                        lower_seq_elem(elem, scope),
                        lower_seq_elems(elems.drop_first(), scope),
                    );
                },
                SyntaxNodeElementView::Leaf(_) => {},
            }
        }
    }
}

proof fn lemma_seq_elem_within(node: SyntaxNodeView, scope: ScopeView)
    ensures
        lower_seq_elem(node, scope).value matches Ok(elem) ==> element_within(
            elem,
            ref_ids(lower_seq_elem(node, scope).refs),
        ),
    decreases node, 0int,
{
    match decorations_of(node) {
        Err(_) => {},
        Ok(decorations) => match child_named_either(node, ".Rule.Choice"@, ".Rule.Expr"@) {
            None => {},
            Some(body) => {
                if body.ast_reflection_style == ASTReflectionStyleView::Reflection(
                    ".Rule.Choice"@,
                ) {
                    match node_child_at(body, 0) {
                        None => {},
                        Some(choice) => {
                            lemma_choice_within(choice, scope);
                            let lowered = lower_choice(choice, scope);
                            match lowered.value {
                                Ok(group) => {
                                    lemma_collapsed_within(group, ref_ids(lowered.refs));
                                },
                                Err(_) => {},
                            }
                        },
                    }
                } else if decorations.occurrence is None {
                    lemma_expr_within(body, scope);
                }
            },
        },
    }
}

proof fn lemma_expr_within(node: SyntaxNodeView, scope: ScopeView)
    ensures
        lower_expr(node, scope).value matches Ok(expr) ==> element_within(
            RuleElementView::Expression(expr),
            ref_ids(lower_expr(node, scope).refs),
        ),
    decreases node, 0int,
{
    match node_child_at(node, 0) {
        None => {},
        Some(child) => match child.ast_reflection_style {
            ASTReflectionStyleView::Reflection(name) => {
                if name == ".Rule.ArgID"@ {
                } else if name == ".Rule.CharClass"@ {
                } else if name == ".Rule.Generics"@ || name == ".Rule.Func"@ {
                    lemma_args_within(child.sub_elems, scope);
                    let args = lower_args(child.sub_elems, scope);
                    match args.value {
                        Err(_) => {},
                        Ok(groups) => {
                            let target = call_target(child, name == ".Rule.Func"@, scope);
                            lemma_call_target_recorded(child, name == ".Rule.Func"@, scope);
                            lemma_ref_ids_concat(args.refs, target.refs);
                            lemma_groups_within_more(
                                groups,
                                ref_ids(args.refs),
                                ref_ids(args.refs + target.refs),
                            );
                        },
                    }
                } else if name == ".Rule.ID"@ {
                    lemma_call_target_recorded(child, false, scope);
                } else if name == ".Rule.Str"@ {
                } else if name == ".Rule.Wildcard"@ {
                }
            },
            _ => {},
        },
    }
}

proof fn lemma_args_within(elems: Seq<SyntaxNodeElementView>, scope: ScopeView)
    ensures
        lower_args(elems, scope).value matches Ok(groups) ==> groups_within(
            groups,
            ref_ids(lower_args(elems, scope).refs),
        ),
    decreases elems, 0int,
{
    if elems.len() > 0 {
        lemma_args_within(elems.drop_first(), scope);
        match elems[0] {
            SyntaxNodeElementView::Node(arg) => {
                if arg.ast_reflection_style == ASTReflectionStyleView::Reflection(
                    ".Rule.InstantPureChoice"@,
                ) {
                    lemma_choice_within(arg, scope);
                    let first = lower_choice(arg, scope);
                    match first.value {
                        Ok(group) => {
                            lemma_collapsed_within(group, ref_ids(first.refs));
                        },
                        Err(_) => {},
                    }
                    lemma_chain_groups_within(
                        first.with(
                            match first.value {
                                Ok(group) => Ok(collapsed(group)),
                                Err(error) => Err(error),
                            },
                        ),
                        lower_args(elems.drop_first(), scope),
                    );
                }
            },
            SyntaxNodeElementView::Leaf(_) => {},
        }
    }
}

/// Whether every rule that the rule defined by the command names is one
/// of `known`. A command that defines no rule names none.
pub open spec fn command_within(command: BlockCommandView, known: Set<Seq<char>>) -> bool {
    command matches BlockCommandView::Define { pos, rule } ==> group_within(rule.group, known)
}

/// The same of every command of a list.
pub open spec fn commands_within(cmds: Seq<BlockCommandView>, known: Set<Seq<char>>) -> bool {
    forall|k: int| 0 <= k < cmds.len() ==> command_within(#[trigger] cmds[k], known)
}

/// The same of the commands of every block of a block map.
pub open spec fn blocks_within(blocks: Seq<(Seq<char>, BlockView)>, known: Set<Seq<char>>) -> bool {
    forall|b: int| 0 <= b < blocks.len() ==> commands_within((#[trigger] blocks[b]).1.cmds, known)
}

/// The same of every block map of a run.
pub open spec fn files_within(files: Seq<Seq<(Seq<char>, BlockView)>>, known: Set<Seq<char>>) -> bool {
    forall|f: int| 0 <= f < files.len() ==> blocks_within(#[trigger] files[f], known)
}

/// The same of every rule of a catalog.
pub open spec fn rules_within(rules: Seq<(Seq<char>, RuleView)>, known: Set<Seq<char>>) -> bool {
    forall|i: int| 0 <= i < rules.len() ==> group_within((#[trigger] rules[i]).1.group, known)
}

/// The keys of a list of entries.
pub open spec fn key_set<T>(entries: Seq<(Seq<char>, T)>) -> Set<Seq<char>> {
    Set::new(|key: Seq<char>| has_key(entries, key))
}

/// A catalog is closed when its start rule stands in it and every rule
/// that one of its rules names stands in it.
pub open spec fn catalog_closed(catalog: RuleMapView) -> bool {
    &&& has_key(catalog.rules, catalog.start_rule_id)
    &&& rules_within(catalog.rules, key_set(catalog.rules))
}

proof fn lemma_commands_within_more(
    cmds: Seq<BlockCommandView>,
    known: Set<Seq<char>>,
    more: Set<Seq<char>>,
)
    requires
        commands_within(cmds, known),
        known.subset_of(more),
    ensures
        commands_within(cmds, more),
{
    assert forall|k: int| 0 <= k < cmds.len() implies command_within(#[trigger] cmds[k], more) by {
        match cmds[k] {
            BlockCommandView::Define { pos, rule } => {
                lemma_group_within_more(rule.group, known, more);
            },
            _ => {},
        }
    }
}

proof fn lemma_blocks_within_more(
    blocks: Seq<(Seq<char>, BlockView)>,
    known: Set<Seq<char>>,
    more: Set<Seq<char>>,
)
    requires
        blocks_within(blocks, known),
        known.subset_of(more),
    ensures
        blocks_within(blocks, more),
{
    assert forall|b: int| 0 <= b < blocks.len() implies commands_within(
        (#[trigger] blocks[b]).1.cmds,
        more,
    ) by {
        lemma_commands_within_more(blocks[b].1.cmds, known, more);
    }
}

proof fn lemma_files_within_more(
    files: Seq<Seq<(Seq<char>, BlockView)>>,
    known: Set<Seq<char>>,
    more: Set<Seq<char>>,
)
    requires
        files_within(files, known),
        known.subset_of(more),
    ensures
        files_within(files, more),
{
    assert forall|f: int| 0 <= f < files.len() implies blocks_within(#[trigger] files[f], more) by {
        lemma_blocks_within_more(files[f], known, more);
    }
}

/// Every rule that a defined rule names is among the references of
/// lowering its definition.
proof fn lemma_define_within(cmd: SyntaxNodeView, scope: ScopeView)
    ensures
        lower_define(cmd, scope).value matches Ok(rule) ==> group_within(
            rule.group,
            ref_ids(lower_define(cmd, scope).refs),
        ),
{
    let whole = lower_define(cmd, scope);
    match whole.value {
        Ok(rule) => {
            let generics = lower_parameters(cmd, ".Block.DefineCmdGenericsIDs"@);
            let funcs = lower_parameters(cmd, ".Block.DefineCmdFuncIDs"@);
            let body = lower_body(cmd, scope);
            let choice = child_named(cmd, ".Rule.PureChoice"@)->0;
            let lowered = lower_choice(choice, scope);
            lemma_choice_within(choice, scope);
            let group = lowered.value->Ok_0;
            lemma_collapsed_within(group, ref_ids(lowered.refs));
            let root = rule_root(collapsed(group));
            assert(group_within(root, ref_ids(body.refs))) by {
                assert(root.sub_elems.len() == 1);
                assert(element_within(root.sub_elems[0], ref_ids(body.refs)));
            }
            let none = Seq::<(Seq<char>, CharacterPositionView)>::empty();
            lemma_ref_ids_concat(funcs.refs, body.refs);
            lemma_ref_ids_concat(generics.refs, funcs.refs + body.refs);
            lemma_ref_ids_concat(none, generics.refs + (funcs.refs + body.refs));
            assert(whole.refs == none + (generics.refs + (funcs.refs + body.refs)));
            lemma_group_within_more(root, ref_ids(body.refs), ref_ids(whole.refs));
        },
        Err(_) => {},
    }
}

proof fn lemma_command_within(
    cmd: SyntaxNodeView,
    file: Seq<char>,
    block: Seq<char>,
    progress: BlockProgress,
    known: Set<Seq<char>>,
)
    requires
        commands_within(progress.cmds, known),
    ensures
        lower_command(cmd, file, block, progress).value matches Ok(next) ==> commands_within(
            next.cmds,
            known.union(ref_ids(lower_command(cmd, file, block, progress).refs)),
        ),
{
    let one = lower_command(cmd, file, block, progress);
    let more = known.union(ref_ids(one.refs));
    match one.value {
        Ok(next) => {
            lemma_commands_within_more(progress.cmds, known, more);
            let scope = ScopeView {
                file_alias_name: file,
                block_name: block,
                aliases: progress.aliases,
            };
            lemma_define_within(cmd, scope);
            assert forall|k: int| 0 <= k < next.cmds.len() implies command_within(
                #[trigger] next.cmds[k],
                more,
            ) by {
                if k < progress.cmds.len() {
                    assert(next.cmds[k] == progress.cmds[k]);
                } else {
                    match next.cmds[k] {
                        BlockCommandView::Define { pos, rule } => {
                            lemma_group_within_more(rule.group, ref_ids(one.refs), more);
                        },
                        _ => {},
                    }
                }
            }
        },
        Err(_) => {},
    }
}

proof fn lemma_commands_within(
    elems: Seq<SyntaxNodeElementView>,
    file: Seq<char>,
    block: Seq<char>,
    progress: BlockProgress,
    known: Set<Seq<char>>,
)
    requires
        commands_within(progress.cmds, known),
    ensures
        lower_commands(elems, file, block, progress).value matches Ok(done) ==> commands_within(
            done.cmds,
            known.union(ref_ids(lower_commands(elems, file, block, progress).refs)),
        ),
    decreases elems.len(),
{
    let whole = lower_commands(elems, file, block, progress);
    if elems.len() == 0 {
        lemma_commands_within_more(progress.cmds, known, known.union(ref_ids(whole.refs)));
    } else if !is_reflectable(elems[0]) {
        lemma_commands_within(elems.drop_first(), file, block, progress, known);
    } else {
        match elems[0] {
            SyntaxNodeElementView::Leaf(_) => {},
            SyntaxNodeElementView::Node(entry) => match node_child_at(entry, 0) {
                None => {},
                Some(cmd) => {
                    let one = lower_command(cmd, file, block, progress);
                    lemma_command_within(cmd, file, block, progress, known);
                    match one.value {
                        Ok(next) => {
                            let mid = known.union(ref_ids(one.refs));
                            let rest = lower_commands(elems.drop_first(), file, block, next);
                            lemma_commands_within(elems.drop_first(), file, block, next, mid);
                            lemma_ref_ids_concat(one.refs, rest.refs);
                            match rest.value {
                                Ok(done) => {
                                    lemma_commands_within_more(
                                        done.cmds,
                                        mid.union(ref_ids(rest.refs)),
                                        known.union(ref_ids(whole.refs)),
                                    );
                                },
                                Err(_) => {},
                            }
                        },
                        Err(_) => {},
                    }
                },
            },
        }
    }
}

proof fn lemma_put_block_within(
    blocks: Seq<(Seq<char>, BlockView)>,
    name: Seq<char>,
    block: BlockView,
    known: Set<Seq<char>>,
)
    requires
        blocks_within(blocks, known),
        commands_within(block.cmds, known),
    ensures
        blocks_within(put(blocks, name, block), known),
{
    let after = put(blocks, name, block);
    assert forall|b: int| 0 <= b < after.len() implies commands_within(
        (#[trigger] after[b]).1.cmds,
        known,
    ) by {
        if after[b] != (name, block) {
            assert(after[b] == blocks[b]);
        }
    }
}

proof fn lemma_block_within(
    block_node: SyntaxNodeView,
    file: Seq<char>,
    progress: FileProgress,
    known: Set<Seq<char>>,
)
    requires
        blocks_within(progress.blocks, known),
    ensures
        lower_block(block_node, file, progress).value matches Ok(next) ==> blocks_within(
            next.blocks,
            known.union(ref_ids(lower_block(block_node, file, progress).refs)),
        ),
{
    let whole = lower_block(block_node, file, progress);
    let more = known.union(ref_ids(whole.refs));
    match whole.value {
        Ok(next) => {
            let name_node = node_child_at(block_node, 0)->0;
            let name = leaf_values(name_node);
            let begin = BlockProgress::begin(progress.start);
            let body = lower_block_body(block_node, file, name, progress.start);
            match node_child_at(block_node, 1) {
                Some(body_node) => {
                    lemma_commands_within(body_node.sub_elems, file, name, begin, known);
                },
                None => {},
            }
            let none = Seq::<(Seq<char>, CharacterPositionView)>::empty();
            assert(whole.refs =~= body.refs) by {
                assert(none + body.refs =~= body.refs);
            }
            let done = body.value->Ok_0;
            lemma_commands_within_more(done.cmds, known.union(ref_ids(body.refs)), more);
            lemma_blocks_within_more(progress.blocks, known, more);
            lemma_put_block_within(
                progress.blocks,
                name,
                BlockView { name, cmds: done.cmds },
                more,
            );
        },
        Err(_) => {},
    }
}

proof fn lemma_blocks_within(
    elems: Seq<SyntaxNodeElementView>,
    file: Seq<char>,
    progress: FileProgress,
    known: Set<Seq<char>>,
)
    requires
        blocks_within(progress.blocks, known),
    ensures
        lower_blocks(elems, file, progress).value matches Ok(done) ==> blocks_within(
            done.blocks,
            known.union(ref_ids(lower_blocks(elems, file, progress).refs)),
        ),
    decreases elems.len(),
{
    let whole = lower_blocks(elems, file, progress);
    if elems.len() == 0 {
        lemma_blocks_within_more(progress.blocks, known, known.union(ref_ids(whole.refs)));
    } else if !is_reflectable(elems[0]) {
        lemma_blocks_within(elems.drop_first(), file, progress, known);
    } else {
        match elems[0] {
            SyntaxNodeElementView::Leaf(_) => {},
            SyntaxNodeElementView::Node(block_node) => {
                let one = lower_block(block_node, file, progress);
                lemma_block_within(block_node, file, progress, known);
                match one.value {
                    Ok(next) => {
                        let mid = known.union(ref_ids(one.refs));
                        let rest = lower_blocks(elems.drop_first(), file, next);
                        lemma_blocks_within(elems.drop_first(), file, next, mid);
                        lemma_ref_ids_concat(one.refs, rest.refs);
                        match rest.value {
                            Ok(done) => {
                                lemma_blocks_within_more(
                                    done.blocks,
                                    mid.union(ref_ids(rest.refs)),
                                    known.union(ref_ids(whole.refs)),
                                );
                            },
                            Err(_) => {},
                        }
                    },
                    Err(_) => {},
                }
            },
        }
    }
}

/// Every rule that a rule of a lowered file names is among the references
/// of lowering the file.
pub proof fn lemma_file_within(root: SyntaxNodeElementView, file: Seq<char>, start: Option<Seq<char>>)
    ensures
        lower_file(root, file, start).value matches Ok(done) ==> blocks_within(
            done.blocks,
            ref_ids(lower_file(root, file, start).refs),
        ),
{
    let whole = lower_file(root, file, start);
    match whole.value {
        Ok(done) => {
            let root_node = root->Node_0;
            let begin = FileProgress { blocks: Seq::empty(), start };
            let known = Set::<Seq<char>>::empty();
            match node_child_at(root_node, 0) {
                Some(container) => {
                    lemma_blocks_within(container.sub_elems, file, begin, known);
                    let blocks = lower_blocks(container.sub_elems, file, begin);
                    let before = blocks.value->Ok_0;
                    lemma_blocks_within_more(
                        before.blocks,
                        known.union(ref_ids(blocks.refs)),
                        ref_ids(whole.refs),
                    );
                    lemma_put_block_within(
                        before.blocks,
                        Seq::empty(),
                        synthetic_main(),
                        ref_ids(whole.refs),
                    );
                },
                None => {
                    lemma_put_block_within(
                        begin.blocks,
                        Seq::empty(),
                        synthetic_main(),
                        ref_ids(whole.refs),
                    );
                },
            }
        },
        Err(_) => {},
    }
}

/// The recorded identifiers are those that were recorded before and those
/// of the new references.
pub proof fn lemma_recorded_keys(
    appeared: Seq<(Seq<char>, CharacterPositionView)>,
    refs: Seq<(Seq<char>, CharacterPositionView)>,
)
    ensures
        key_set(recorded(appeared, refs)) == key_set(appeared).union(ref_ids(refs)),
    decreases refs.len(),
{
    let after = recorded(appeared, refs);
    if refs.len() == 0 {
        assert(key_set(after) =~= key_set(appeared).union(ref_ids(refs)));
    } else {
        let before = recorded(appeared, refs.drop_last());
        lemma_recorded_keys(appeared, refs.drop_last());
        let last = refs.last();
        assert forall|id: Seq<char>| key_set(after).contains(id) <==> key_set(appeared).union(
            ref_ids(refs),
        ).contains(id) by {
            lemma_put_lookup(before, last.0, last.1, id);
            assert(has_key(after, id) == (id == last.0 || has_key(before, id)));
            assert(key_set(before).contains(id) == has_key(before, id));
            if id == last.0 {
                assert(refs[refs.len() - 1].0 == id);
            }
            if ref_ids(refs.drop_last()).contains(id) {
                let i = choose|i: int|
                    0 <= i < refs.drop_last().len() && (#[trigger] refs.drop_last()[i]).0 == id;
                assert(refs[i].0 == id);
            }
            if ref_ids(refs).contains(id) {
                let i = choose|i: int| 0 <= i < refs.len() && (#[trigger] refs[i]).0 == id;
                if i < refs.len() - 1 {
                    assert(refs.drop_last()[i].0 == id);
                }
            }
        }
        assert(key_set(after) =~= key_set(appeared).union(ref_ids(refs)));
    }
}

/// In a run, every rule that a rule of a lowered file names is among the
/// recorded identifiers.
pub proof fn lemma_run_within(progress: RunProgress, files: Seq<FCPEGFileView>)
    requires
        files_within(progress.block_maps, key_set(progress.appeared)),
    ensures
        files_within(
            after_files(progress, files).block_maps,
            key_set(after_files(progress, files).appeared),
        ),
    decreases files.len(),
{
    if files.len() > 0 {
        lemma_run_within(progress, files.drop_last());
        let before = after_files(progress, files.drop_last());
        let file = files.last();
        let lowered = lower_file(file.tree, file.file_alias_name, before.start);
        let after = after_file(before, file);
        lemma_recorded_keys(before.appeared, lowered.refs);
        lemma_files_within_more(before.block_maps, key_set(before.appeared), key_set(after.appeared));
        lemma_file_within(file.tree, file.file_alias_name, before.start);
        match lowered.value {
            Ok(done) => {
                lemma_blocks_within_more(done.blocks, ref_ids(lowered.refs), key_set(after.appeared));
                assert forall|f: int| 0 <= f < after.block_maps.len() implies blocks_within(
                    #[trigger] after.block_maps[f],
                    key_set(after.appeared),
                ) by {
                    if f < before.block_maps.len() {
                        assert(after.block_maps[f] == before.block_maps[f]);
                    }
                }
            },
            Err(_) => {},
        }
    }
}

proof fn lemma_rules_after_commands_within(
    rules: Seq<(Seq<char>, RuleView)>,
    cmds: Seq<BlockCommandView>,
    known: Set<Seq<char>>,
)
    requires
        rules_within(rules, known),
        commands_within(cmds, known),
    ensures
        rules_within(rules_after_commands(rules, cmds), known),
    decreases cmds.len(),
{
    if cmds.len() > 0 {
        assert forall|k: int| 0 <= k < cmds.drop_last().len() implies command_within(
            #[trigger] cmds.drop_last()[k],
            known,
        ) by {
            assert(cmds.drop_last()[k] == cmds[k]);
        }
        lemma_rules_after_commands_within(rules, cmds.drop_last(), known);
        let before = rules_after_commands(rules, cmds.drop_last());
        let after = rules_after_commands(rules, cmds);
        match cmds.last() {
            BlockCommandView::Define { pos, rule } => {
                assert(cmds[cmds.len() - 1] == cmds.last());
                assert forall|i: int| 0 <= i < after.len() implies group_within(
                    (#[trigger] after[i]).1.group,
                    known,
                ) by {
                    if after[i] != (rule.id, rule) {
                        assert(after[i] == before[i]);
                    }
                }
            },
            _ => {},
        }
    }
}

proof fn lemma_rules_after_blocks_within(
    rules: Seq<(Seq<char>, RuleView)>,
    blocks: Seq<(Seq<char>, BlockView)>,
    known: Set<Seq<char>>,
)
    requires
        rules_within(rules, known),
        blocks_within(blocks, known),
    ensures
        rules_within(rules_after_blocks(rules, blocks), known),
    decreases blocks.len(),
{
    if blocks.len() > 0 {
        assert forall|b: int| 0 <= b < blocks.drop_last().len() implies commands_within(
            (#[trigger] blocks.drop_last()[b]).1.cmds,
            known,
        ) by {
            assert(blocks.drop_last()[b] == blocks[b]);
        }
        lemma_rules_after_blocks_within(rules, blocks.drop_last(), known);
        assert(blocks[blocks.len() - 1] == blocks.last());
        lemma_rules_after_commands_within(
            rules_after_blocks(rules, blocks.drop_last()),
            blocks.last().1.cmds,
            known,
        );
    }
}

/// Rules that are within a set stay within it when the rules of block
/// maps that are within it are added.
pub proof fn lemma_rules_after_files_within(
    rules: Seq<(Seq<char>, RuleView)>,
    files: Seq<Seq<(Seq<char>, BlockView)>>,
    known: Set<Seq<char>>,
)
    requires
        rules_within(rules, known),
        files_within(files, known),
    ensures
        rules_within(rules_after_files(rules, files), known),
    decreases files.len(),
{
    if files.len() > 0 {
        assert forall|f: int| 0 <= f < files.drop_last().len() implies blocks_within(
            #[trigger] files.drop_last()[f],
            known,
        ) by {
            assert(files.drop_last()[f] == files[f]);
        }
        lemma_rules_after_files_within(rules, files.drop_last(), known);
        assert(files[files.len() - 1] == files.last());
        lemma_rules_after_blocks_within(
            rules_after_files(rules, files.drop_last()),
            files.last(),
            known,
        );
    }
}

/// The invariant of the catalog: the catalog of a run is closed.
pub proof fn lemma_rule_map_is_closed(files: Seq<FCPEGFileView>)
    requires
        rule_map_of(files).catalog is Some,
    ensures
        catalog_closed(rule_map_of(files).catalog->0),
{
    let run = after_files(RunProgress::begin(), files);
    let catalog = rule_map_of(files).catalog->0;
    let known = key_set(run.appeared);
    assert(files_within(RunProgress::begin().block_maps, key_set(RunProgress::begin().appeared)));
    lemma_run_within(RunProgress::begin(), files);
    lemma_catalog_is_closed(aliases_of(files), run.block_maps, run.start, run.appeared);
    assert(catalog.rules == catalog_rules(run.block_maps));
    assert(rules_within(Seq::<(Seq<char>, RuleView)>::empty(), known));
    lemma_rules_after_files_within(Seq::empty(), run.block_maps, known);
    assert forall|id: Seq<char>| known.contains(id) implies key_set(catalog.rules).contains(id) by {
        let keys = crate::string_map::keys_of(run.appeared);
        let i = choose|i: int| 0 <= i < keys.len() && keys[i] == id;
        assert(run.appeared[i].0 == id);
    }
    assert forall|i: int| 0 <= i < catalog.rules.len() implies group_within(
        (#[trigger] catalog.rules[i]).1.group,
        key_set(catalog.rules),
    ) by {
        lemma_group_within_more(catalog.rules[i].1.group, known, key_set(catalog.rules));
    }
}

} // verus!
