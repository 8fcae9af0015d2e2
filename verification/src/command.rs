//! Command lowering: from the syntax tree of a grammar source to its
//! blocks and their commands.

use vstd::prelude::*;
use crate::block::{Block, BlockCommand, BlockCommandView, BlockMap, BlockView};
use crate::blockparser::BlockParser;
use crate::element::{
    carried_out, chain_tokens, collapse, collapsed, lemma_carried_out_in_turn,
    lemma_carried_out_quietly, lower_choice, to_string_vec,
};
use crate::error::{BlockParseError, BlockParseErrorView, Console};
use crate::position::{empty_position, CharacterPosition, CharacterPositionView};
use crate::resolve::{
    lemma_alias_transparency, malformed, malformed_tree, recorded, resolved_rule_id, result_view,
    AppearedIds, Lowered, Scope, ScopeView,
};
use crate::rule::{
    lemma_group_children, lemma_views_push, views, ASTReflectionStyle, ASTReflectionStyleView,
    distinct_strings, LoopCountView, Rule, RuleElement, RuleElementLookaheadKind,
    RuleElementLoopCount, RuleElementView, RuleGroup, RuleGroupKind, RuleGroupKindView,
    RuleGroupView, RuleView,
};
use crate::string_map::{has_key, put, StringMap};
use crate::text::{
    contains_string, dotted, has_string, is_pascal_case, join_dotted, pascal_case, qualified,
    qualify, str_is, string_views,
};
use crate::tree::{
    child_named, is_reflectable, leaf_values, lemma_node_children, node_child_at, position_of,
    SyntaxNode, SyntaxNodeElement, SyntaxNodeElementView, SyntaxNodeView, SyntaxTree,
};

verus! {

/// The view of an optional string.
pub open spec fn optional_view(s: Option<String>) -> Option<Seq<char>> {
    match s {
        Some(s) => Some(s@),
        None => None,
    }
}

/// The warning that is due for the name of a block or of a rule: none
/// where the name is in Pascal case.
pub open spec fn naming_warning(pos: CharacterPositionView, name: Seq<char>) -> Seq<
    BlockParseErrorView,
> {
    if pascal_case(name) {
        Seq::empty()
    } else {
        seq![BlockParseErrorView::NamingRuleViolation { pos, id: name }]
    }
}

/// The same outcome after two runs of references and warnings is the
/// outcome after both runs in one.
pub proof fn lemma_after_after<T>(
    lowered: Lowered<T>,
    refs: Seq<(Seq<char>, CharacterPositionView)>,
    warnings: Seq<BlockParseErrorView>,
    later_refs: Seq<(Seq<char>, CharacterPositionView)>,
    later_warnings: Seq<BlockParseErrorView>,
)
    ensures
        lowered.after(later_refs, later_warnings).after(refs, warnings) == lowered.after(
            refs + later_refs,
            warnings + later_warnings,
        ),
{
    let left = lowered.after(later_refs, later_warnings).after(refs, warnings);
    let right = lowered.after(refs + later_refs, warnings + later_warnings);
    assert(left.refs =~= right.refs);
    assert(left.warnings =~= right.warnings);
}

/// An outcome after nothing is the outcome itself.
pub proof fn lemma_after_nothing<T>(lowered: Lowered<T>)
    ensures
        lowered.after(Seq::empty(), Seq::empty()) == lowered,
{
    let left = lowered.after(Seq::empty(), Seq::empty());
    assert(left.refs =~= lowered.refs);
    assert(left.warnings =~= lowered.warnings);
}

/// The parameter names among the children of a parameter list, in order,
/// behind the names in `seen`. A name that was seen before is kept and a
/// warning is raised for it.
pub open spec fn lower_arg_ids(elems: Seq<SyntaxNodeElementView>, seen: Seq<Seq<char>>) -> Lowered<
    Seq<Seq<char>>,
>
    decreases elems.len(),
{
    if elems.len() == 0 {
        Lowered::done(seen)
    } else {
        match elems[0] {
            SyntaxNodeElementView::Node(arg) => if arg.ast_reflection_style
                == ASTReflectionStyleView::Reflection(".Rule.ArgID"@) {
                let name = leaf_values(arg);
                if has_string(seen, name) {
                    match position_of(arg) {
                        None => Lowered::fail(malformed()),
                        Some(pos) => lower_arg_ids(elems.drop_first(), seen.push(name)).after(
                            Seq::empty(),
                            seq![BlockParseErrorView::DuplicatedArgumentID { pos, arg_id: name }],
                        ),
                    }
                } else {
                    lower_arg_ids(elems.drop_first(), seen.push(name))
                }
            } else {
                lower_arg_ids(elems.drop_first(), seen)
            },
            SyntaxNodeElementView::Leaf(_) => lower_arg_ids(elems.drop_first(), seen),
        }
    }
}

/// The parameter names of the list reflected under `list_name` in a
/// definition: none where the definition has no such list.
pub open spec fn lower_parameters(cmd: SyntaxNodeView, list_name: Seq<char>) -> Lowered<
    Seq<Seq<char>>,
> {
    match child_named(cmd, list_name) {
        Some(list) => lower_arg_ids(list.sub_elems, Seq::empty()),
        None => Lowered::done(Seq::empty()),
    }
}

/// The root group of a rule: it expands into the one group that is the
/// body of the rule.
pub open spec fn rule_root(body: RuleGroupView) -> RuleGroupView {
    RuleGroupView {
        kind: RuleGroupKindView::Sequence,
        sub_elems: seq![RuleElementView::Group(body)],
        ast_reflection_style: ASTReflectionStyleView::Expansion,
        lookahead_kind: RuleElementLookaheadKind::NoLookahead,
        loop_count: LoopCountView::single(),
    }
}

/// The body of a definition: the lowered choice behind the arrow.
pub open spec fn lower_body(cmd: SyntaxNodeView, scope: ScopeView) -> Lowered<RuleGroupView> {
    match child_named(cmd, ".Rule.PureChoice"@) {
        None => Lowered::fail(BlockParseErrorView::InternalError { msg: "pure choice not found"@ }),
        Some(choice) => {
            let lowered = lower_choice(choice, scope);
            lowered.with(
                match lowered.value {
                    Ok(group) => Ok(rule_root(collapsed(group))),
                    Err(error) => Err(error),
                },
            )
        },
    }
}

/// The rule that a definition lowers to, given its place and its name:
/// its parameter lists are read first, then its body. The identifier of
/// the rule is the alias of the file, the name of the block and the name of
/// the rule, joined by dots.
pub open spec fn lower_rule(
    cmd: SyntaxNodeView,
    scope: ScopeView,
    pos: CharacterPositionView,
    name: Seq<char>,
) -> Lowered<RuleView> {
    let generics = lower_parameters(cmd, ".Block.DefineCmdGenericsIDs"@);
    match generics.value {
        Err(_) => generics.failed(),
        Ok(generics_arg_ids) => {
            let funcs = lower_parameters(cmd, ".Block.DefineCmdFuncIDs"@);
            match funcs.value {
                Err(_) => funcs.failed::<RuleView>().after(generics.refs, generics.warnings),
                Ok(func_arg_ids) => {
                    let body = lower_body(cmd, scope);
                    body.with(
                        match body.value {
                            Ok(group) => Ok(
                                RuleView {
                                    pos,
                                    id: qualified(scope.file_alias_name, scope.block_name, name),
                                    name,
                                    generics_arg_ids,
                                    func_arg_ids,
                                    group,
                                },
                            ),
                            Err(error) => Err(error),
                        },
                    ).after(funcs.refs, funcs.warnings).after(generics.refs, generics.warnings)
                },
            }
        },
    }
}

/// The rule that a definition lowers to. A name that is not in Pascal case
/// raises a warning and is kept.
pub open spec fn lower_define(cmd: SyntaxNodeView, scope: ScopeView) -> Lowered<RuleView> {
    match node_child_at(cmd, 0) {
        None => Lowered::fail(malformed()),
        Some(name_node) => match position_of(name_node) {
            None => Lowered::fail(malformed()),
            Some(pos) => lower_rule(cmd, scope, pos, leaf_values(name_node)).after(
                Seq::empty(),
                naming_warning(pos, leaf_values(name_node)),
            ),
        },
    }
}

/// Round-trip naming: a rule that a definition lowers to carries the
/// identifier `<file>.<block>.<rule>`, where `<rule>` is its own name.
pub proof fn lemma_defined_rule_id(cmd: SyntaxNodeView, scope: ScopeView)
    ensures
        lower_define(cmd, scope).value matches Ok(rule) ==> rule.id == qualified(
            scope.file_alias_name,
            scope.block_name,
            rule.name,
        ),
{
}

/// A parameter list that was read without a warning holds no name twice:
/// the names behind `seen` are distinct and none of them stands in `seen`.
pub proof fn lemma_arg_ids_distinct(elems: Seq<SyntaxNodeElementView>, seen: Seq<Seq<char>>)
    requires
        distinct_strings(seen),
        lower_arg_ids(elems, seen).warnings.len() == 0,
    ensures
        lower_arg_ids(elems, seen).value matches Ok(names) ==> distinct_strings(names),
    decreases elems.len(),
{
    if elems.len() > 0 {
        match elems[0] {
            SyntaxNodeElementView::Node(arg) => {
                if arg.ast_reflection_style == ASTReflectionStyleView::Reflection(".Rule.ArgID"@) {
                    let name = leaf_values(arg);
                    if has_string(seen, name) {
                        if position_of(arg) is Some {
                            let rest = lower_arg_ids(elems.drop_first(), seen.push(name));
                            let warning = BlockParseErrorView::DuplicatedArgumentID {
                                pos: position_of(arg)->0,
                                arg_id: name,
                            };
                            assert((seq![warning] + rest.warnings).len() > 0);
                        }
                    } else {
                        let next = seen.push(name);
                        assert forall|i: int, j: int| 0 <= i < j < next.len() implies next[i]
                            != next[j] by {
                            if j == seen.len() {
                                assert(seen[i] == next[i]);
                            }
                        }
                        lemma_arg_ids_distinct(elems.drop_first(), next);
                    }
                } else {
                    lemma_arg_ids_distinct(elems.drop_first(), seen);
                }
            },
            SyntaxNodeElementView::Leaf(_) => {
                lemma_arg_ids_distinct(elems.drop_first(), seen);
            },
        }
    }
}

/// A definition that was lowered without a warning has distinct names
/// within each of its two parameter lists.
pub proof fn lemma_defined_parameters_distinct(cmd: SyntaxNodeView, scope: ScopeView)
    requires
        lower_define(cmd, scope).warnings.len() == 0,
    ensures
        lower_define(cmd, scope).value matches Ok(rule) ==> rule.has_distinct_parameters(),
{
    match lower_define(cmd, scope).value {
        Ok(rule) => {
            match child_named(cmd, ".Block.DefineCmdGenericsIDs"@) {
                Some(list) => {
                    lemma_arg_ids_distinct(list.sub_elems, Seq::empty());
                },
                None => {},
            }
            match child_named(cmd, ".Block.DefineCmdFuncIDs"@) {
                Some(list) => {
                    lemma_arg_ids_distinct(list.sub_elems, Seq::empty());
                },
                None => {},
            }
        },
        Err(_) => {},
    }
}

/// The start command that a start node lowers to: a chain of two parts
/// names block and rule in the current file, a chain of three parts names
/// file alias, block and rule.
pub open spec fn lower_start(cmd: SyntaxNodeView) -> Result<BlockCommandView, BlockParseErrorView> {
    match node_child_at(cmd, 0) {
        None => Err(malformed()),
        Some(chain) => match chain_tokens(chain.sub_elems) {
            None => Err(malformed()),
            Some(tokens) => if tokens.len() == 2 {
                Ok(
                    BlockCommandView::Start {
                        pos: empty_position(),
                        file_alias_name: Seq::empty(),
                        block_name: tokens[0],
                        rule_name: tokens[1],
                    },
                )
            } else if tokens.len() == 3 {
                Ok(
                    BlockCommandView::Start {
                        pos: empty_position(),
                        file_alias_name: tokens[0],
                        block_name: tokens[1],
                        rule_name: tokens[2],
                    },
                )
            } else {
                match node_child_at(chain, 0) {
                    None => Err(malformed()),
                    Some(first) => match position_of(first) {
                        None => Err(malformed()),
                        Some(pos) => Err(BlockParseErrorView::InvalidID { pos, id: dotted(tokens) }),
                    },
                }
            },
        },
    }
}

/// The use command that a use node lowers to: a chain of one part names a
/// block of the current file, a chain of two parts names file alias and
/// block. The alias is the name behind `as`, or the name of the block
/// where none is given.
pub open spec fn lower_use(cmd: SyntaxNodeView, file: Seq<char>) -> Result<
    BlockCommandView,
    BlockParseErrorView,
> {
    match node_child_at(cmd, 0) {
        None => Err(malformed()),
        Some(chain) => match chain_tokens(chain.sub_elems) {
            None => Err(malformed()),
            Some(tokens) => if tokens.len() == 1 || tokens.len() == 2 {
                let file_alias_name = if tokens.len() == 1 {
                    file
                } else {
                    tokens[0]
                };
                let block_name = tokens[tokens.len() - 1];
                match child_named(cmd, ".Block.UseCmdBlockAlias"@) {
                    None => Ok(
                        BlockCommandView::Use {
                            pos: empty_position(),
                            file_alias_name,
                            block_name,
                            block_alias_name: block_name,
                        },
                    ),
                    Some(alias) => match node_child_at(alias, 0) {
                        None => Err(malformed()),
                        Some(id) => Ok(
                            BlockCommandView::Use {
                                pos: empty_position(),
                                file_alias_name,
                                block_name,
                                block_alias_name: leaf_values(id),
                            },
                        ),
                    },
                }
            } else {
                Err(
                    BlockParseErrorView::InternalError {
                        msg: "invalid chain ID length on use command"@,
                    },
                )
            },
        },
    }
}

/// How far the lowering of a block has come: the aliases that the block
/// has declared, the start rule that the file has chosen, the names of the
/// rules that the block has defined, and its commands.
pub ghost struct BlockProgress {
    pub aliases: Seq<(Seq<char>, (Seq<char>, Seq<char>))>,
    pub start: Option<Seq<char>>,
    pub rule_names: Seq<Seq<char>>,
    pub cmds: Seq<BlockCommandView>,
}

impl BlockProgress {
    /// The start of a block, in a file that has chosen `start`.
    pub open spec fn begin(start: Option<Seq<char>>) -> BlockProgress {
        BlockProgress {
            aliases: Seq::empty(),
            start,
            rule_names: Seq::empty(),
            cmds: Seq::empty(),
        }
    }
}

/// The diagnostic for a command node of a kind that is not known.
pub open spec fn unknown_command(name: Seq<char>) -> BlockParseErrorView {
    BlockParseErrorView::InternalError { msg: "invalid node name '"@ + name + "'"@ }
}

/// The progress after a definition: the rule is added unless the block
/// has defined a rule of that name.
pub open spec fn after_define(progress: BlockProgress, rule: RuleView) -> Result<
    BlockProgress,
    BlockParseErrorView,
> {
    if has_string(progress.rule_names, rule.name) {
        Err(BlockParseErrorView::DuplicatedRuleName { pos: rule.pos, rule_name: rule.name })
    } else {
        Ok(
            BlockProgress {
                rule_names: progress.rule_names.push(rule.name),
                cmds: progress.cmds.push(
                    BlockCommandView::Define { pos: empty_position(), rule },
                ),
                ..progress
            },
        )
    }
}

/// The progress after a start command that names `file_alias_name`,
/// `block_name` and `rule_name`. The command must stand in the block
/// `Main`. In the top-level file, whose alias is empty, it chooses the
/// start rule, and a second one is in error. In other files it is kept and
/// chooses nothing.
pub open spec fn after_start(
    progress: BlockProgress,
    file: Seq<char>,
    block: Seq<char>,
    command: BlockCommandView,
    chosen: Seq<char>,
) -> Result<BlockProgress, BlockParseErrorView> {
    if block != "Main"@ {
        Err(BlockParseErrorView::StartCommandOutsideMainBlock { pos: empty_position() })
    } else if file.len() == 0 {
        if progress.start is Some {
            Err(BlockParseErrorView::DuplicatedStartCommand { pos: empty_position() })
        } else {
            Ok(BlockProgress { start: Some(chosen), cmds: progress.cmds.push(command), ..progress })
        }
    } else {
        Ok(BlockProgress { cmds: progress.cmds.push(command), ..progress })
    }
}

/// The rule that a start command chooses.
pub open spec fn chosen_rule(command: BlockCommandView) -> Seq<char> {
    match command {
        BlockCommandView::Start { pos, file_alias_name, block_name, rule_name } => qualified(
            file_alias_name,
            block_name,
            rule_name,
        ),
        _ => Seq::empty(),
    }
}

/// The progress after a use command: the alias now stands for the block
/// that the command names.
pub open spec fn after_use(progress: BlockProgress, command: BlockCommandView) -> BlockProgress {
    match command {
        BlockCommandView::Use { pos, file_alias_name, block_name, block_alias_name } => BlockProgress {
            aliases: put(progress.aliases, block_alias_name, (file_alias_name, block_name)),
            cmds: progress.cmds.push(command),
            ..progress
        },
        _ => progress,
    }
}

/// Alias transparency, on the commands: after a use command that
/// declares `block_alias_name` for the block `block_name` of the file
/// `file_alias_name`, the identifier `block_alias_name.rule` resolves to
/// `file_alias_name.block_name.rule`.
pub proof fn lemma_use_then_reference(
    progress: BlockProgress,
    command: BlockCommandView,
    file: Seq<char>,
    block: Seq<char>,
    rule: Seq<char>,
    pos: CharacterPositionView,
)
    requires
        command is Use,
    ensures
        resolved_rule_id(
            pos,
            seq![command->block_alias_name, rule],
            ScopeView {
                file_alias_name: file,
                block_name: block,
                aliases: after_use(progress, command).aliases,
            },
        ).value == Ok::<Seq<char>, BlockParseErrorView>(
            qualified(command->Use_file_alias_name, command->Use_block_name, rule),
        ),
{
    lemma_alias_transparency(
        ScopeView { file_alias_name: file, block_name: block, aliases: progress.aliases },
        command->block_alias_name,
        command->Use_file_alias_name,
        command->Use_block_name,
        rule,
        pos,
    );
}

/// The progress after one command of the block `block` of the file `file`.
pub open spec fn lower_command(
    cmd: SyntaxNodeView,
    file: Seq<char>,
    block: Seq<char>,
    progress: BlockProgress,
) -> Lowered<BlockProgress> {
    match cmd.ast_reflection_style {
        ASTReflectionStyleView::Reflection(name) => if name == ".Block.CommentCmd"@ {
            Lowered::done(
                BlockProgress {
                    cmds: progress.cmds.push(
                        BlockCommandView::Comment {
                            pos: empty_position(),
                            value: leaf_values(cmd),
                        },
                    ),
                    ..progress
                },
            )
        } else if name == ".Block.DefineCmd"@ {
            let lowered = lower_define(
                cmd,
                ScopeView { file_alias_name: file, block_name: block, aliases: progress.aliases },
            );
            match lowered.value {
                Err(_) => lowered.failed(),
                Ok(rule) => lowered.with(after_define(progress, rule)),
            }
        } else if name == ".Block.StartCmd"@ {
            match lower_start(cmd) {
                Err(error) => Lowered::fail(error),
                Ok(command) => Lowered {
                    value: after_start(progress, file, block, command, chosen_rule(command)),
                    refs: Seq::empty(),
                    warnings: Seq::empty(),
                },
            }
        } else if name == ".Block.UseCmd"@ {
            match lower_use(cmd, file) {
                Err(error) => Lowered::fail(error),
                Ok(command) => Lowered::done(after_use(progress, command)),
            }
        } else {
            Lowered::fail(unknown_command(name))
        },
        _ => Lowered::fail(malformed()),
    }
}

/// The name of the start command is not that of a comment or of a
/// definition.
proof fn lemma_start_command_name()
    ensures
        ".Block.StartCmd"@ != ".Block.CommentCmd"@,
        ".Block.StartCmd"@ != ".Block.DefineCmd"@,
{
    reveal_strlit(".Block.StartCmd");
    reveal_strlit(".Block.CommentCmd");
    reveal_strlit(".Block.DefineCmd");
    assert(".Block.StartCmd"@[7] == 'S');
    assert(".Block.CommentCmd"@[7] == 'C');
    assert(".Block.DefineCmd"@[7] == 'D');
}

/// Start uniqueness: in the block `Main` of the top-level file, a start
/// command that follows another gives the one error that says so.
pub proof fn lemma_second_start(cmd: SyntaxNodeView, progress: BlockProgress)
    requires
        cmd.ast_reflection_style == ASTReflectionStyleView::Reflection(".Block.StartCmd"@),
        lower_start(cmd) is Ok,
        progress.start is Some,
    ensures
        lower_command(cmd, Seq::empty(), "Main"@, progress) == Lowered::<BlockProgress>::fail(
            BlockParseErrorView::DuplicatedStartCommand { pos: empty_position() },
        ),
{
    lemma_start_command_name();
}

/// A start rule that was chosen stays chosen: no command that is lowered
/// without error changes it.
pub proof fn lemma_start_is_kept(
    cmd: SyntaxNodeView,
    file: Seq<char>,
    block: Seq<char>,
    progress: BlockProgress,
)
    requires
        progress.start is Some,
    ensures
        lower_command(cmd, file, block, progress).value matches Ok(next) ==> next.start
            == progress.start,
{
}

/// In the block `Main` of the top-level file, the first start command
/// chooses the rule that it names.
pub proof fn lemma_first_start(cmd: SyntaxNodeView, progress: BlockProgress)
    requires
        cmd.ast_reflection_style == ASTReflectionStyleView::Reflection(".Block.StartCmd"@),
        progress.start is None,
    ensures
        lower_command(cmd, Seq::empty(), "Main"@, progress).value matches Ok(next) ==> lower_start(
            cmd,
        ) matches Ok(command) && next.start == Some(chosen_rule(command)),
{
    lemma_start_command_name();
}

/// The names of the rules that the commands define, in order.
pub open spec fn defined_names(cmds: Seq<BlockCommandView>) -> Seq<Seq<char>>
    decreases cmds.len(),
{
    if cmds.len() == 0 {
        Seq::empty()
    } else {
        match cmds.last() {
            BlockCommandView::Define { pos, rule } => defined_names(cmds.drop_last()).push(
                rule.name,
            ),
            _ => defined_names(cmds.drop_last()),
        }
    }
}

/// Whether the progress of a block knows exactly the names of the rules
/// that its commands define, and none of them twice.
pub open spec fn names_in_order(progress: BlockProgress) -> bool {
    progress.rule_names == defined_names(progress.cmds) && distinct_strings(progress.rule_names)
}

proof fn lemma_command_keeps_names(
    cmd: SyntaxNodeView,
    file: Seq<char>,
    block: Seq<char>,
    progress: BlockProgress,
)
    requires
        names_in_order(progress),
    ensures
        lower_command(cmd, file, block, progress).value matches Ok(next) ==> names_in_order(next),
{
    match lower_command(cmd, file, block, progress).value {
        Ok(next) => {
            if next.cmds.len() == progress.cmds.len() + 1 {
                assert(next.cmds.drop_last() =~= progress.cmds);
            }
            if next.rule_names.len() == progress.rule_names.len() + 1 {
                let names = next.rule_names;
                assert forall|i: int, j: int| 0 <= i < j < names.len() implies names[i]
                    != names[j] by {
                    if j == progress.rule_names.len() {
                        assert(progress.rule_names[i] == names[i]);
                    }
                }
            }
        },
        Err(_) => {},
    }
}

proof fn lemma_commands_keep_names(
    elems: Seq<SyntaxNodeElementView>,
    file: Seq<char>,
    block: Seq<char>,
    progress: BlockProgress,
)
    requires
        names_in_order(progress),
    ensures
        lower_commands(elems, file, block, progress).value matches Ok(done) ==> names_in_order(
            done,
        ),
    decreases elems.len(),
{
    if elems.len() > 0 {
        if !is_reflectable(elems[0]) {
            lemma_commands_keep_names(elems.drop_first(), file, block, progress);
        } else {
            match elems[0] {
                SyntaxNodeElementView::Leaf(_) => {},
                SyntaxNodeElementView::Node(entry) => match node_child_at(entry, 0) {
                    None => {},
                    Some(cmd) => {
                        lemma_command_keeps_names(cmd, file, block, progress);
                        match lower_command(cmd, file, block, progress).value {
                            Ok(next) => {
                                lemma_commands_keep_names(elems.drop_first(), file, block, next);
                            },
                            Err(_) => {},
                        }
                    },
                },
            }
        }
    }
}

/// Within a block, no two rules share a name: the names of the rules that
/// the commands of a lowered block define are distinct.
pub proof fn lemma_rule_names_are_distinct(
    block_node: SyntaxNodeView,
    file: Seq<char>,
    name: Seq<char>,
    start: Option<Seq<char>>,
)
    ensures
        lower_block_body(block_node, file, name, start).value matches Ok(done) ==> distinct_strings(
            defined_names(done.cmds),
        ),
{
    let begin = BlockProgress::begin(start);
    match node_child_at(block_node, 1) {
        Some(body) => {
            lemma_commands_keep_names(body.sub_elems, file, name, begin);
        },
        None => {},
    }
}

/// Whether every rule that the commands define carries the identifier
/// `<file>.<block>.<rule>`, where `<rule>` is its own name.
pub open spec fn commands_named(cmds: Seq<BlockCommandView>, file: Seq<char>, block: Seq<char>) -> bool {
    forall|k: int|
        0 <= k < cmds.len() ==> ((#[trigger] cmds[k]) matches BlockCommandView::Define { pos, rule }
            ==> rule.id == qualified(file, block, rule.name))
}

proof fn lemma_command_keeps_naming(
    cmd: SyntaxNodeView,
    file: Seq<char>,
    block: Seq<char>,
    progress: BlockProgress,
)
    requires
        commands_named(progress.cmds, file, block),
    ensures
        lower_command(cmd, file, block, progress).value matches Ok(next) ==> commands_named(
            next.cmds,
            file,
            block,
        ),
{
    match lower_command(cmd, file, block, progress).value {
        Ok(next) => {
            assert forall|k: int| 0 <= k < next.cmds.len() implies ((#[trigger] next.cmds[k]) matches BlockCommandView::Define {
                pos,
                rule,
            } ==> rule.id == qualified(file, block, rule.name)) by {
                if k < progress.cmds.len() {
                    assert(next.cmds[k] == progress.cmds[k]);
                }
            }
        },
        Err(_) => {},
    }
}

proof fn lemma_commands_keep_naming(
    elems: Seq<SyntaxNodeElementView>,
    file: Seq<char>,
    block: Seq<char>,
    progress: BlockProgress,
)
    requires
        commands_named(progress.cmds, file, block),
    ensures
        lower_commands(elems, file, block, progress).value matches Ok(done) ==> commands_named(
            done.cmds,
            file,
            block,
        ),
    decreases elems.len(),
{
    if elems.len() > 0 {
        if !is_reflectable(elems[0]) {
            lemma_commands_keep_naming(elems.drop_first(), file, block, progress);
        } else {
            match elems[0] {
                SyntaxNodeElementView::Leaf(_) => {},
                SyntaxNodeElementView::Node(entry) => match node_child_at(entry, 0) {
                    None => {},
                    Some(cmd) => {
                        lemma_command_keeps_naming(cmd, file, block, progress);
                        match lower_command(cmd, file, block, progress).value {
                            Ok(next) => {
                                lemma_commands_keep_naming(elems.drop_first(), file, block, next);
                            },
                            Err(_) => {},
                        }
                    },
                },
            }
        }
    }
}

/// Whether every rule that a block of the block map defines carries the
/// identifier `<file>.<block>.<rule>`, where `<block>` is the name under
/// which the block stands in the map.
pub open spec fn blocks_named(blocks: Seq<(Seq<char>, BlockView)>, file: Seq<char>) -> bool {
    forall|b: int|
        0 <= b < blocks.len() ==> commands_named((#[trigger] blocks[b]).1.cmds, file, blocks[b].0)
}

proof fn lemma_put_keeps_naming(
    blocks: Seq<(Seq<char>, BlockView)>,
    file: Seq<char>,
    name: Seq<char>,
    block: BlockView,
)
    requires
        blocks_named(blocks, file),
        commands_named(block.cmds, file, name),
    ensures
        blocks_named(put(blocks, name, block), file),
{
    let after = put(blocks, name, block);
    assert forall|b: int| 0 <= b < after.len() implies commands_named(
        (#[trigger] after[b]).1.cmds,
        file,
        after[b].0,
    ) by {
        if after[b] != (name, block) {
            assert(after[b] == blocks[b]);
        }
    }
}

proof fn lemma_block_keeps_naming(block_node: SyntaxNodeView, file: Seq<char>, progress: FileProgress)
    requires
        blocks_named(progress.blocks, file),
    ensures
        lower_block(block_node, file, progress).value matches Ok(next) ==> blocks_named(
            next.blocks,
            file,
        ),
{
    match node_child_at(block_node, 0) {
        None => {},
        Some(name_node) => match position_of(name_node) {
            None => {},
            Some(pos) => {
                let name = leaf_values(name_node);
                if !has_key(progress.blocks, name) {
                    let begin = BlockProgress::begin(progress.start);
                    match node_child_at(block_node, 1) {
                        Some(body) => {
                            lemma_commands_keep_naming(body.sub_elems, file, name, begin);
                        },
                        None => {},
                    }
                    match lower_block_body(block_node, file, name, progress.start).value {
                        Ok(done) => {
                            lemma_put_keeps_naming(
                                progress.blocks,
                                file,
                                name,
                                BlockView { name, cmds: done.cmds },
                            );
                        },
                        Err(_) => {},
                    }
                }
            },
        },
    }
}

proof fn lemma_blocks_keep_naming(
    elems: Seq<SyntaxNodeElementView>,
    file: Seq<char>,
    progress: FileProgress,
)
    requires
        blocks_named(progress.blocks, file),
    ensures
        lower_blocks(elems, file, progress).value matches Ok(done) ==> blocks_named(
            done.blocks,
            file,
        ),
    decreases elems.len(),
{
    if elems.len() > 0 {
        if !is_reflectable(elems[0]) {
            lemma_blocks_keep_naming(elems.drop_first(), file, progress);
        } else {
            match elems[0] {
                SyntaxNodeElementView::Leaf(_) => {},
                SyntaxNodeElementView::Node(block_node) => {
                    lemma_block_keeps_naming(block_node, file, progress);
                    match lower_block(block_node, file, progress).value {
                        Ok(next) => {
                            lemma_blocks_keep_naming(elems.drop_first(), file, next);
                        },
                        Err(_) => {},
                    }
                },
            }
        }
    }
}

/// The progress after the commands among the children of a block body:
/// each reflectable child, which must be a node that holds the command as
/// its first child, in order, up to the first error.
pub open spec fn lower_commands(
    elems: Seq<SyntaxNodeElementView>,
    file: Seq<char>,
    block: Seq<char>,
    progress: BlockProgress,
) -> Lowered<BlockProgress>
    decreases elems.len(),
{
    if elems.len() == 0 {
        Lowered::done(progress)
    } else if !is_reflectable(elems[0]) {
        lower_commands(elems.drop_first(), file, block, progress)
    } else {
        match elems[0] {
            SyntaxNodeElementView::Leaf(_) => Lowered::fail(malformed()),
            SyntaxNodeElementView::Node(entry) => match node_child_at(entry, 0) {
                None => Lowered::fail(malformed()),
                Some(cmd) => {
                    let one = lower_command(cmd, file, block, progress);
                    match one.value {
                        Err(_) => one.failed(),
                        Ok(next) => lower_commands(elems.drop_first(), file, block, next).after(
                            one.refs,
                            one.warnings,
                        ),
                    }
                },
            },
        }
    }
}

/// How far the lowering of a file has come: its blocks by name, and the
/// start rule that it has chosen.
pub ghost struct FileProgress {
    pub blocks: Seq<(Seq<char>, BlockView)>,
    pub start: Option<Seq<char>>,
}

/// The commands of a block node: those of its second child, or none where
/// it has no second child.
pub open spec fn lower_block_body(
    block_node: SyntaxNodeView,
    file: Seq<char>,
    name: Seq<char>,
    start: Option<Seq<char>>,
) -> Lowered<BlockProgress> {
    match node_child_at(block_node, 1) {
        Some(body) => lower_commands(body.sub_elems, file, name, BlockProgress::begin(start)),
        None => Lowered::done(BlockProgress::begin(start)),
    }
}

/// The progress after one block of the file `file`. The name of the block
/// is the text under its first child. A name that is not in Pascal case
/// raises a warning; a name that the file has used for a block is in error.
pub open spec fn lower_block(block_node: SyntaxNodeView, file: Seq<char>, progress: FileProgress) -> Lowered<
    FileProgress,
> {
    match node_child_at(block_node, 0) {
        None => Lowered::fail(malformed()),
        Some(name_node) => match position_of(name_node) {
            None => Lowered::fail(malformed()),
            Some(pos) => {
                let name = leaf_values(name_node);
                if has_key(progress.blocks, name) {
                    Lowered::<FileProgress>::fail(
                        BlockParseErrorView::DuplicatedBlockName { pos, block_name: name },
                    ).after(Seq::empty(), naming_warning(pos, name))
                } else {
                    let body = lower_block_body(block_node, file, name, progress.start);
                    body.with(
                        match body.value {
                            Ok(done) => Ok(
                                FileProgress {
                                    blocks: put(
                                        progress.blocks,
                                        name,
                                        BlockView { name, cmds: done.cmds },
                                    ),
                                    start: done.start,
                                },
                            ),
                            Err(error) => Err(error),
                        },
                    ).after(Seq::empty(), naming_warning(pos, name))
                }
            },
        },
    }
}

/// The progress after the blocks among the children of the first child of
/// the root: each reflectable child, which must be a node, in order, up to
/// the first error.
pub open spec fn lower_blocks(
    elems: Seq<SyntaxNodeElementView>,
    file: Seq<char>,
    progress: FileProgress,
) -> Lowered<FileProgress>
    decreases elems.len(),
{
    if elems.len() == 0 {
        Lowered::done(progress)
    } else if !is_reflectable(elems[0]) {
        lower_blocks(elems.drop_first(), file, progress)
    } else {
        match elems[0] {
            SyntaxNodeElementView::Leaf(_) => Lowered::fail(malformed()),
            SyntaxNodeElementView::Node(block_node) => {
                let one = lower_block(block_node, file, progress);
                match one.value {
                    Err(_) => one.failed(),
                    Ok(next) => lower_blocks(elems.drop_first(), file, next).after(
                        one.refs,
                        one.warnings,
                    ),
                }
            },
        }
    }
}

/// The block that every block map holds under the empty name: a block
/// named `Main` without commands.
pub open spec fn synthetic_main() -> BlockView {
    BlockView { name: "Main"@, cmds: Seq::empty() }
}

/// The blocks of the file under the alias `file` whose syntax tree has the
/// root `root`, and the start rule that the file has chosen, where
/// `start` was chosen before. After the blocks as written, the block map
/// holds the synthetic block under the empty name.
pub open spec fn lower_file(root: SyntaxNodeElementView, file: Seq<char>, start: Option<Seq<char>>) -> Lowered<
    FileProgress,
> {
    match root {
        SyntaxNodeElementView::Leaf(_) => Lowered::fail(malformed()),
        SyntaxNodeElementView::Node(root_node) => {
            let blocks = match node_child_at(root_node, 0) {
                Some(container) => lower_blocks(
                    container.sub_elems,
                    file,
                    FileProgress { blocks: Seq::empty(), start },
                ),
                None => Lowered::done(FileProgress { blocks: Seq::empty(), start }),
            };
            blocks.with(
                match blocks.value {
                    Ok(done) => Ok(
                        FileProgress {
                            blocks: put(done.blocks, Seq::empty(), synthetic_main()),
                            start: done.start,
                        },
                    ),
                    Err(error) => Err(error),
                },
            )
        },
    }
}

/// Reading parameter names references no rule.
pub proof fn lemma_arg_ids_quiet(elems: Seq<SyntaxNodeElementView>, seen: Seq<Seq<char>>)
    ensures
        lower_arg_ids(elems, seen).refs.len() == 0,
    decreases elems.len(),
{
    if elems.len() > 0 {
        match elems[0] {
            SyntaxNodeElementView::Node(arg) => {
                if arg.ast_reflection_style == ASTReflectionStyleView::Reflection(".Rule.ArgID"@) {
                    lemma_arg_ids_quiet(elems.drop_first(), seen.push(leaf_values(arg)));
                } else {
                    lemma_arg_ids_quiet(elems.drop_first(), seen);
                }
            },
            SyntaxNodeElementView::Leaf(_) => {
                lemma_arg_ids_quiet(elems.drop_first(), seen);
            },
        }
    }
}

/// The state of a block that is being lowered.
#[derive(Debug)]
pub struct BlockState {
    pub scope: Scope,
    pub start_rule_id: Option<String>,
    pub rule_names: Vec<String>,
    pub cmds: Vec<BlockCommand>,
}

impl BlockState {
    pub open spec fn wf(&self) -> bool {
        self.scope.wf()
    }

    pub open spec fn progress(&self) -> BlockProgress {
        BlockProgress {
            aliases: self.scope.block_alias_map@,
            start: optional_view(self.start_rule_id),
            rule_names: string_views(self.rule_names@),
            cmds: views(self.cmds@),
        }
    }

    /// The state at the start of the block `block_name` of the file
    /// `file_alias_name`, in a file that has chosen `start_rule_id`.
    pub fn new(file_alias_name: String, block_name: String, start_rule_id: Option<String>) -> (r:
        Self)
        ensures
            r.wf(),
            r.scope.file_alias_name == file_alias_name,
            r.scope.block_name == block_name,
            r.progress() == BlockProgress::begin(optional_view(start_rule_id)),
    {
        let r = BlockState {
            scope: Scope { file_alias_name, block_name, block_alias_map: StringMap::new() },
            start_rule_id,
            rule_names: Vec::new(),
            cmds: Vec::new(),
        };
        proof {
            assert(r.progress().rule_names =~= Seq::<Seq<char>>::empty());
            assert(r.progress().cmds =~= Seq::<BlockCommandView>::empty());
        }
        r
    }
}

/// The state of a file that is being lowered.
#[derive(Debug)]
pub struct FileState {
    pub file_alias_name: String,
    pub blocks: BlockMap,
    pub start_rule_id: Option<String>,
}

impl FileState {
    pub open spec fn wf(&self) -> bool {
        self.blocks.wf()
    }

    pub open spec fn progress(&self) -> FileProgress {
        FileProgress { blocks: self.blocks@, start: optional_view(self.start_rule_id) }
    }
}

/// A copy of an optional string.
pub fn clone_optional(s: &Option<String>) -> (r: Option<String>)
    ensures
        r == *s,
{
    match s {
        Some(s) => Some(s.clone()),
        None => None,
    }
}

fn warn_naming(cons: &mut Console, pos: &CharacterPosition, name: &String)
    ensures
        final(cons)@ == old(cons)@ + naming_warning(pos@, name@),
{
    if !is_pascal_case(name) {
        cons.append_log(BlockParseError::NamingRuleViolation { pos: pos.clone(), id: name.clone() });
        assert(cons@ =~= old(cons)@ + naming_warning(pos@, name@));
    } else {
        assert(cons@ =~= old(cons)@ + naming_warning(pos@, name@));
    }
}

impl BlockParser {
    /// Reads the names of a parameter list.
    pub fn to_define_cmd_arg_ids(cons: &mut Console, list: &SyntaxNode) -> (r: Result<
        Vec<String>,
        BlockParseError,
    >)
        ensures
            match r {
                Ok(args) => lower_arg_ids(list@.sub_elems, Seq::empty()).value == Ok::<
                    Seq<Seq<char>>,
                    BlockParseErrorView,
                >(string_views(args@)),
                Err(error) => lower_arg_ids(list@.sub_elems, Seq::empty()).value == Err::<
                    Seq<Seq<char>>,
                    BlockParseErrorView,
                >(error@),
            },
            final(cons)@ == old(cons)@ + lower_arg_ids(list@.sub_elems, Seq::empty()).warnings,
    {
        proof {
            lemma_node_children(*list);
        }
        let ghost elems = list@.sub_elems;
        let ghost whole = lower_arg_ids(elems, Seq::empty());
        let ghost mut warnings: Seq<BlockParseErrorView> = Seq::empty();
        let mut args: Vec<String> = Vec::new();
        let mut i: usize = 0;
        proof {
            assert(elems.skip(0) =~= elems);
            assert(string_views(args@) =~= Seq::<Seq<char>>::empty());
            lemma_after_nothing(whole);
            assert(cons@ + warnings =~= cons@);
        }
        while i < list.sub_elems.len()
            invariant
                0 <= i <= list.sub_elems.len(),
                elems == list@.sub_elems,
                elems.len() == list.sub_elems@.len(),
                forall|k: int| 0 <= k < list.sub_elems@.len() ==> elems[k] == (#[trigger] list.sub_elems@[k])@,
                whole == lower_arg_ids(elems, Seq::empty()),
                whole == lower_arg_ids(elems.skip(i as int), string_views(args@)).after(
                    Seq::empty(),
                    warnings,
                ),
                cons@ == old(cons)@ + warnings,
            decreases list.sub_elems.len() - i,
        {
            proof {
                assert(elems.skip(i as int).drop_first() =~= elems.skip(i as int + 1));
                assert(elems.skip(i as int)[0] == elems[i as int]);
            }
            match &list.sub_elems[i] {
                SyntaxNodeElement::Node(arg) => {
                    if arg.is_named(".Rule.ArgID") {
                        let name = arg.join_child_leaf_values();
                        let ghost seen = string_views(args@);
                        let ghost rest = lower_arg_ids(elems.skip(i as int + 1), seen.push(name@));
                        if contains_string(&args, &name) {
                            match arg.get_position() {
                                None => {
                                    proof {
                                        assert(warnings + Seq::<BlockParseErrorView>::empty()
                                            =~= warnings);
                                    }
                                    return Err(malformed_tree());
                                },
                                Some(pos) => {
                                    let ghost warning =
                                        BlockParseErrorView::DuplicatedArgumentID {
                                        pos: pos@,
                                        arg_id: name@,
                                    };
                                    proof {
                                        lemma_after_after(
                                            rest,
                                            Seq::empty(),
                                            warnings,
                                            Seq::empty(),
                                            seq![warning],
                                        );
                                        assert(warnings + seq![warning] =~= warnings.push(warning));
                                        assert(Seq::<(Seq<char>, CharacterPositionView)>::empty()
                                            + Seq::<(Seq<char>, CharacterPositionView)>::empty()
                                            =~= Seq::<(Seq<char>, CharacterPositionView)>::empty());
                                        warnings = warnings.push(warning);
                                    }
                                    cons.append_log(
                                        BlockParseError::DuplicatedArgumentID {
                                            pos,
                                            arg_id: name.clone(),
                                        },
                                    );
                                },
                            }
                        }
                        args.push(name);
                        proof {
                            assert(string_views(args@) =~= seen.push(name@));
                        }
                    }
                },
                SyntaxNodeElement::Leaf(_) => {},
            }
            i = i + 1;
        }
        proof {
            assert(elems.skip(i as int) =~= Seq::<SyntaxNodeElementView>::empty());
            assert(warnings + Seq::<BlockParseErrorView>::empty() =~= warnings);
        }
        Ok(args)
    }

    /// Reads the parameter list of a definition that is reflected under
    /// `list_name`.
    pub fn to_define_cmd_parameters(cons: &mut Console, cmd_node: &SyntaxNode, list_name: &str) -> (r:
        Result<Vec<String>, BlockParseError>)
        ensures
            match r {
                Ok(args) => lower_parameters(cmd_node@, list_name@).value == Ok::<
                    Seq<Seq<char>>,
                    BlockParseErrorView,
                >(string_views(args@)),
                Err(error) => lower_parameters(cmd_node@, list_name@).value == Err::<
                    Seq<Seq<char>>,
                    BlockParseErrorView,
                >(error@),
            },
            final(cons)@ == old(cons)@ + lower_parameters(cmd_node@, list_name@).warnings,
            lower_parameters(cmd_node@, list_name@).refs.len() == 0,
    {
        match cmd_node.find_first_child_node(list_name) {
            Some(list) => {
                proof {
                    lemma_arg_ids_quiet(list@.sub_elems, Seq::empty());
                }
                Self::to_define_cmd_arg_ids(cons, list)
            },
            None => {
                let args: Vec<String> = Vec::new();
                proof {
                    assert(string_views(args@) =~= Seq::<Seq<char>>::empty());
                    assert(cons@ + Seq::<BlockParseErrorView>::empty() =~= cons@);
                }
                Ok(args)
            },
        }
    }

    /// Lowers the body of a definition to the root group of its rule.
    pub fn to_define_cmd_body(
        scope: &Scope,
        appeared: &mut AppearedIds,
        cons: &mut Console,
        cmd_node: &SyntaxNode,
    ) -> (r: Result<RuleGroup, BlockParseError>)
        requires
            scope.wf(),
            old(appeared).wf(),
        ensures
            final(appeared).wf(),
            carried_out(
                lower_body(cmd_node@, scope@),
                result_view(r),
                old(appeared)@,
                final(appeared)@,
                old(cons)@,
                final(cons)@,
            ),
    {
        match cmd_node.find_first_child_node(".Rule.PureChoice") {
            None => {
                proof {
                    lemma_carried_out_quietly(lower_body(cmd_node@, scope@), appeared@, cons@);
                }
                Err(
                    BlockParseError::InternalError { msg: String::from_str("pure choice not found") },
                )
            },
            Some(choice) => match Self::to_rule_choice_elem(scope, appeared, cons, choice) {
                Err(error) => Err(error),
                Ok(group) => {
                    let body = collapse(group);
                    let mut sub_elems: Vec<RuleElement> = Vec::new();
                    sub_elems.push(RuleElement::Group(body));
                    let root = RuleGroup {
                        kind: RuleGroupKind::Sequence,
                        sub_elems,
                        ast_reflection_style: ASTReflectionStyle::Expansion,
                        lookahead_kind: RuleElementLookaheadKind::NoLookahead,
                        loop_count: RuleElementLoopCount::get_single_loop(),
                    };
                    proof {
                        lemma_group_children(root);
                        assert(root@.sub_elems =~= seq![RuleElementView::Group(body@)]);
                    }
                    Ok(root)
                },
            },
        }
    }

    /// Lowers a definition to its rule.
    pub fn to_define_cmd(
        scope: &Scope,
        appeared: &mut AppearedIds,
        cons: &mut Console,
        cmd_node: &SyntaxNode,
    ) -> (r: Result<Rule, BlockParseError>)
        requires
            scope.wf(),
            old(appeared).wf(),
        ensures
            final(appeared).wf(),
            carried_out(
                lower_define(cmd_node@, scope@),
                result_view(r),
                old(appeared)@,
                final(appeared)@,
                old(cons)@,
                final(cons)@,
            ),
    {
        let ghost whole = lower_define(cmd_node@, scope@);
        let name_node = match cmd_node.get_node_child_at(0) {
            Some(name_node) => name_node,
            None => {
                proof {
                    lemma_carried_out_quietly(whole, appeared@, cons@);
                }
                return Err(malformed_tree());
            },
        };
        let pos = match name_node.get_position() {
            Some(pos) => pos,
            None => {
                proof {
                    lemma_carried_out_quietly(whole, appeared@, cons@);
                }
                return Err(malformed_tree());
            },
        };
        let name = name_node.join_child_leaf_values();
        let ghost naming = naming_warning(pos@, name@);
        let ghost generics = lower_parameters(cmd_node@, ".Block.DefineCmdGenericsIDs"@);
        let ghost funcs = lower_parameters(cmd_node@, ".Block.DefineCmdFuncIDs"@);
        let ghost body = lower_body(cmd_node@, scope@);
        let ghost none = Seq::<(Seq<char>, CharacterPositionView)>::empty();
        warn_naming(cons, &pos, &name);
        let generics_arg_ids = match Self::to_define_cmd_parameters(
            cons,
            cmd_node,
            ".Block.DefineCmdGenericsIDs",
        ) {
            Ok(args) => args,
            Err(error) => {
                proof {
                    assert(generics.refs =~= none);
                    assert(none + none =~= none);
                    assert(cons@ =~= old(cons)@ + (naming + generics.warnings));
                }
                return Err(error);
            },
        };
        let func_arg_ids = match Self::to_define_cmd_parameters(
            cons,
            cmd_node,
            ".Block.DefineCmdFuncIDs",
        ) {
            Ok(args) => args,
            Err(error) => {
                proof {
                    assert(generics.refs =~= none);
                    assert(funcs.refs =~= none);
                    assert(none + none =~= none);
                    assert(cons@ =~= old(cons)@ + (naming + (generics.warnings + funcs.warnings)));
                }
                return Err(error);
            },
        };
        let group = Self::to_define_cmd_body(scope, appeared, cons, cmd_node);
        proof {
            assert(generics.refs =~= none);
            assert(funcs.refs =~= none);
            assert(none + none =~= none);
            assert(none + body.refs =~= body.refs);
            assert(cons@ =~= old(cons)@ + (naming + (generics.warnings + (funcs.warnings
                + body.warnings))));
        }
        match group {
            Err(error) => Err(error),
            Ok(group) => {
                let id = qualify(&scope.file_alias_name, &scope.block_name, &name);
                Ok(Rule::new(pos, id, name, generics_arg_ids, func_arg_ids, group))
            },
        }
    }

    /// Lowers a start command.
    pub fn to_start_cmd(cmd_node: &SyntaxNode) -> (r: Result<BlockCommand, BlockParseError>)
        ensures
            result_view(r) == lower_start(cmd_node@),
    {
        let chain = match cmd_node.get_node_child_at(0) {
            Some(chain) => chain,
            None => {
                return Err(malformed_tree());
            },
        };
        let tokens = match to_string_vec(chain) {
            Some(tokens) => tokens,
            None => {
                return Err(malformed_tree());
            },
        };
        let ghost parts = string_views(tokens@);
        if tokens.len() == 2 {
            assert(parts[0] == tokens@[0]@ && parts[1] == tokens@[1]@);
            Ok(
                BlockCommand::Start {
                    pos: CharacterPosition::get_empty(),
                    file_alias_name: String::new(),
                    block_name: tokens[0].clone(),
                    rule_name: tokens[1].clone(),
                },
            )
        } else if tokens.len() == 3 {
            assert(parts[0] == tokens@[0]@ && parts[1] == tokens@[1]@ && parts[2] == tokens@[2]@);
            Ok(
                BlockCommand::Start {
                    pos: CharacterPosition::get_empty(),
                    file_alias_name: tokens[0].clone(),
                    block_name: tokens[1].clone(),
                    rule_name: tokens[2].clone(),
                },
            )
        } else {
            match chain.get_node_child_at(0) {
                None => Err(malformed_tree()),
                Some(first) => match first.get_position() {
                    None => Err(malformed_tree()),
                    Some(pos) => Err(BlockParseError::InvalidID { pos, id: join_dotted(&tokens) }),
                },
            }
        }
    }

    /// Lowers a use command that stands in the file `file_alias_name`.
    pub fn to_use_cmd(file_alias_name: &String, cmd_node: &SyntaxNode) -> (r: Result<
        BlockCommand,
        BlockParseError,
    >)
        ensures
            result_view(r) == lower_use(cmd_node@, file_alias_name@),
    {
        let chain = match cmd_node.get_node_child_at(0) {
            Some(chain) => chain,
            None => {
                return Err(malformed_tree());
            },
        };
        let tokens = match to_string_vec(chain) {
            Some(tokens) => tokens,
            None => {
                return Err(malformed_tree());
            },
        };
        let ghost parts = string_views(tokens@);
        let n = tokens.len();
        if n == 1 || n == 2 {
            assert(parts[0] == tokens@[0]@);
            assert(parts[n - 1] == tokens@[n - 1]@);
            let target_file = if n == 1 {
                file_alias_name.clone()
            } else {
                tokens[0].clone()
            };
            let block_name = tokens[n - 1].clone();
            match cmd_node.find_first_child_node(".Block.UseCmdBlockAlias") {
                None => Ok(
                    BlockCommand::Use {
                        pos: CharacterPosition::get_empty(),
                        file_alias_name: target_file,
                        block_alias_name: block_name.clone(),
                        block_name,
                    },
                ),
                Some(alias) => match alias.get_node_child_at(0) {
                    None => Err(malformed_tree()),
                    Some(id) => Ok(
                        BlockCommand::Use {
                            pos: CharacterPosition::get_empty(),
                            file_alias_name: target_file,
                            block_name,
                            block_alias_name: id.join_child_leaf_values(),
                        },
                    ),
                },
            }
        } else {
            Err(
                BlockParseError::InternalError {
                    msg: String::from_str("invalid chain ID length on use command"),
                },
            )
        }
    }
}

impl BlockParser {
    /// Lowers one command and takes the state of its block one step on.
    pub fn to_block_cmd(
        state: &mut BlockState,
        appeared: &mut AppearedIds,
        cons: &mut Console,
        cmd_node: &SyntaxNode,
    ) -> (r: Result<(), BlockParseError>)
        requires
            old(state).wf(),
            old(appeared).wf(),
        ensures
            final(state).wf(),
            final(appeared).wf(),
            final(state).scope.file_alias_name == old(state).scope.file_alias_name,
            final(state).scope.block_name == old(state).scope.block_name,
            r is Err ==> *final(state) == *old(state),
            carried_out(
                lower_command(
                    cmd_node@,
                    old(state).scope.file_alias_name@,
                    old(state).scope.block_name@,
                    old(state).progress(),
                ),
                match r {
                    Ok(_) => Ok(final(state).progress()),
                    Err(error) => Err(error@),
                },
                old(appeared)@,
                final(appeared)@,
                old(cons)@,
                final(cons)@,
            ),
    {
        let ghost whole = lower_command(
            cmd_node@,
            state.scope.file_alias_name@,
            state.scope.block_name@,
            state.progress(),
        );
        let name = match &cmd_node.ast_reflection_style {
            ASTReflectionStyle::Reflection(name) => name,
            _ => {
                proof {
                    lemma_carried_out_quietly(whole, appeared@, cons@);
                }
                return Err(malformed_tree());
            },
        };
        if str_is(name, ".Block.CommentCmd") {
            let command = BlockCommand::Comment {
                pos: CharacterPosition::get_empty(),
                value: cmd_node.join_child_leaf_values(),
            };
            proof {
                lemma_carried_out_quietly(whole, appeared@, cons@);
                lemma_views_push(state.cmds@, command);
            }
            state.cmds.push(command);
            Ok(())
        } else if str_is(name, ".Block.DefineCmd") {
            match Self::to_define_cmd(&state.scope, appeared, cons, cmd_node) {
                Err(error) => Err(error),
                Ok(rule) => {
                    if contains_string(&state.rule_names, &rule.name) {
                        Err(
                            BlockParseError::DuplicatedRuleName {
                                pos: rule.pos.clone(),
                                rule_name: rule.name.clone(),
                            },
                        )
                    } else {
                        let ghost names = string_views(state.rule_names@);
                        state.rule_names.push(rule.name.clone());
                        let command = BlockCommand::Define {
                            pos: CharacterPosition::get_empty(),
                            rule,
                        };
                        proof {
                            assert(string_views(state.rule_names@) =~= names.push(rule.name@));
                            lemma_views_push(state.cmds@, command);
                        }
                        state.cmds.push(command);
                        Ok(())
                    }
                },
            }
        } else if str_is(name, ".Block.StartCmd") {
            proof {
                lemma_carried_out_quietly(whole, appeared@, cons@);
            }
            match Self::to_start_cmd(cmd_node) {
                Err(error) => Err(error),
                Ok(command) => {
                    if !str_is(&state.scope.block_name, "Main") {
                        Err(
                            BlockParseError::StartCommandOutsideMainBlock {
                                pos: CharacterPosition::get_empty(),
                            },
                        )
                    } else if state.scope.file_alias_name.as_str().unicode_len() == 0 {
                        if state.start_rule_id.is_some() {
                            Err(
                                BlockParseError::DuplicatedStartCommand {
                                    pos: CharacterPosition::get_empty(),
                                },
                            )
                        } else {
                            let chosen = match &command {
                                BlockCommand::Start {
                                    file_alias_name,
                                    block_name,
                                    rule_name,
                                    ..
                                } => qualify(file_alias_name, block_name, rule_name),
                                _ => String::new(),
                            };
                            proof {
                                lemma_views_push(state.cmds@, command);
                            }
                            state.start_rule_id = Some(chosen);
                            state.cmds.push(command);
                            Ok(())
                        }
                    } else {
                        proof {
                            lemma_views_push(state.cmds@, command);
                        }
                        state.cmds.push(command);
                        Ok(())
                    }
                },
            }
        } else if str_is(name, ".Block.UseCmd") {
            proof {
                lemma_carried_out_quietly(whole, appeared@, cons@);
            }
            match Self::to_use_cmd(&state.scope.file_alias_name, cmd_node) {
                Err(error) => Err(error),
                Ok(command) => {
                    match &command {
                        BlockCommand::Use { file_alias_name, block_name, block_alias_name, .. } => {
                            state.scope.block_alias_map.insert(
                                block_alias_name.clone(),
                                (file_alias_name.clone(), block_name.clone()),
                            );
                        },
                        _ => {},
                    }
                    proof {
                        lemma_views_push(state.cmds@, command);
                    }
                    state.cmds.push(command);
                    Ok(())
                },
            }
        } else {
            proof {
                lemma_carried_out_quietly(whole, appeared@, cons@);
            }
            let mut msg = String::from_str("invalid node name '");
            msg.append(name.as_str());
            msg.append("'");
            Err(BlockParseError::InternalError { msg })
        }
    }

    /// Lowers the commands of a block body, in order, up to the first
    /// error.
    pub fn to_block_cmds(
        state: BlockState,
        appeared: &mut AppearedIds,
        cons: &mut Console,
        body: &SyntaxNode,
    ) -> (r: Result<BlockState, BlockParseError>)
        requires
            state.wf(),
            old(appeared).wf(),
        ensures
            final(appeared).wf(),
            r matches Ok(done) ==> {
                &&& done.wf()
                &&& done.scope.file_alias_name == state.scope.file_alias_name
                &&& done.scope.block_name == state.scope.block_name
            },
            carried_out(
                lower_commands(
                    body@.sub_elems,
                    state.scope.file_alias_name@,
                    state.scope.block_name@,
                    state.progress(),
                ),
                match r {
                    Ok(done) => Ok(done.progress()),
                    Err(error) => Err(error@),
                },
                old(appeared)@,
                final(appeared)@,
                old(cons)@,
                final(cons)@,
            ),
    {
        proof {
            lemma_node_children(*body);
        }
        let ghost begin = state;
        let mut work = state;
        let ghost elems = body@.sub_elems;
        let ghost file = work.scope.file_alias_name@;
        let ghost block = work.scope.block_name@;
        let ghost whole = lower_commands(elems, file, block, work.progress());
        let ghost mut refs: Seq<(Seq<char>, CharacterPositionView)> = Seq::empty();
        let ghost mut warnings: Seq<BlockParseErrorView> = Seq::empty();
        let mut i: usize = 0;
        proof {
            assert(elems.skip(0) =~= elems);
            lemma_after_nothing(whole);
            assert(cons@ + warnings =~= cons@);
        }
        while i < body.sub_elems.len()
            invariant
                0 <= i <= body.sub_elems.len(),
                work.wf(),
                appeared.wf(),
                elems == body@.sub_elems,
                elems.len() == body.sub_elems@.len(),
                forall|k: int| 0 <= k < body.sub_elems@.len() ==> elems[k] == (#[trigger] body.sub_elems@[k])@,
                begin == state,
                work.scope.file_alias_name == begin.scope.file_alias_name,
                work.scope.block_name == begin.scope.block_name,
                file == begin.scope.file_alias_name@,
                block == begin.scope.block_name@,
                whole == lower_commands(elems, file, block, begin.progress()),
                whole == lower_commands(elems.skip(i as int), file, block, work.progress()).after(
                    refs,
                    warnings,
                ),
                appeared@ == recorded(old(appeared)@, refs),
                cons@ == old(cons)@ + warnings,
            decreases body.sub_elems.len() - i,
        {
            proof {
                assert(elems.skip(i as int).drop_first() =~= elems.skip(i as int + 1));
                assert(elems.skip(i as int)[0] == elems[i as int]);
            }
            if body.sub_elems[i].is_reflectable() {
                let cmd_node = match &body.sub_elems[i] {
                    SyntaxNodeElement::Leaf(_) => {
                        proof {
                            assert(refs + Seq::<(Seq<char>, CharacterPositionView)>::empty()
                                =~= refs);
                            assert(warnings + Seq::<BlockParseErrorView>::empty() =~= warnings);
                        }
                        return Err(malformed_tree());
                    },
                    SyntaxNodeElement::Node(entry) => match entry.get_node_child_at(0) {
                        None => {
                            proof {
                                assert(refs + Seq::<(Seq<char>, CharacterPositionView)>::empty()
                                    =~= refs);
                                assert(warnings + Seq::<BlockParseErrorView>::empty()
                                    =~= warnings);
                            }
                            return Err(malformed_tree());
                        },
                        Some(cmd_node) => cmd_node,
                    },
                };
                let ghost one = lower_command(cmd_node@, file, block, work.progress());
                let ghost appeared_before = appeared@;
                let ghost cons_before = cons@;
                let done = Self::to_block_cmd(&mut work, appeared, cons, cmd_node);
                proof {
                    lemma_carried_out_in_turn(
                        Lowered::<int> { value: Ok(0), refs, warnings },
                        one,
                        old(appeared)@,
                        appeared_before,
                        appeared@,
                        old(cons)@,
                        cons_before,
                        cons@,
                    );
                }
                match done {
                    Err(error) => {
                        return Err(error);
                    },
                    Ok(_) => {
                        proof {
                            lemma_after_after(
                                lower_commands(
                                    elems.skip(i as int + 1),
                                    file,
                                    block,
                                    work.progress(),
                                ),
                                refs,
                                warnings,
                                one.refs,
                                one.warnings,
                            );
                            refs = refs + one.refs;
                            warnings = warnings + one.warnings;
                        }
                    },
                }
            }
            i = i + 1;
        }
        proof {
            assert(elems.skip(i as int) =~= Seq::<SyntaxNodeElementView>::empty());
            assert(refs + Seq::<(Seq<char>, CharacterPositionView)>::empty() =~= refs);
            assert(warnings + Seq::<BlockParseErrorView>::empty() =~= warnings);
        }
        Ok(work)
    }

    /// Lowers one block and adds it to the blocks of its file.
    pub fn to_block(
        state: &mut FileState,
        appeared: &mut AppearedIds,
        cons: &mut Console,
        block_node: &SyntaxNode,
    ) -> (r: Result<(), BlockParseError>)
        requires
            old(state).wf(),
            old(appeared).wf(),
        ensures
            final(state).wf(),
            final(appeared).wf(),
            final(state).file_alias_name == old(state).file_alias_name,
            r is Err ==> *final(state) == *old(state),
            carried_out(
                lower_block(block_node@, old(state).file_alias_name@, old(state).progress()),
                match r {
                    Ok(_) => Ok(final(state).progress()),
                    Err(error) => Err(error@),
                },
                old(appeared)@,
                final(appeared)@,
                old(cons)@,
                final(cons)@,
            ),
    {
        let ghost whole = lower_block(block_node@, state.file_alias_name@, state.progress());
        let ghost none = Seq::<(Seq<char>, CharacterPositionView)>::empty();
        let name_node = match block_node.get_node_child_at(0) {
            Some(name_node) => name_node,
            None => {
                proof {
                    lemma_carried_out_quietly(whole, appeared@, cons@);
                }
                return Err(malformed_tree());
            },
        };
        let pos = match name_node.get_position() {
            Some(pos) => pos,
            None => {
                proof {
                    lemma_carried_out_quietly(whole, appeared@, cons@);
                }
                return Err(malformed_tree());
            },
        };
        let name = name_node.join_child_leaf_values();
        let ghost naming = naming_warning(pos@, name@);
        warn_naming(cons, &pos, &name);
        if state.blocks.contains_key(&name) {
            proof {
                assert(none + none =~= none);
                assert(naming + Seq::<BlockParseErrorView>::empty() =~= naming);
            }
            return Err(BlockParseError::DuplicatedBlockName { pos, block_name: name });
        }
        let ghost body = lower_block_body(
            block_node@,
            state.file_alias_name@,
            name@,
            state.progress().start,
        );
        let block_state = BlockState::new(
            state.file_alias_name.clone(),
            name.clone(),
            clone_optional(&state.start_rule_id),
        );
        let done = match block_node.get_node_child_at(1) {
            Some(body_node) => Self::to_block_cmds(block_state, appeared, cons, body_node),
            None => {
                proof {
                    lemma_carried_out_quietly(body, appeared@, cons@);
                }
                Ok(block_state)
            },
        };
        proof {
            assert(none + body.refs =~= body.refs);
            assert(cons@ =~= old(cons)@ + (naming + body.warnings));
        }
        match done {
            Err(error) => Err(error),
            Ok(block_state) => {
                let BlockState { scope, start_rule_id, rule_names, cmds } = block_state;
                state.blocks.insert(name.clone(), Block::new(name, cmds));
                state.start_rule_id = start_rule_id;
                Ok(())
            },
        }
    }

    /// Lowers the blocks of a file, in order, up to the first error.
    pub fn to_blocks(
        state: FileState,
        appeared: &mut AppearedIds,
        cons: &mut Console,
        container: &SyntaxNode,
    ) -> (r: Result<FileState, BlockParseError>)
        requires
            state.wf(),
            old(appeared).wf(),
        ensures
            final(appeared).wf(),
            r matches Ok(done) ==> done.wf() && done.file_alias_name == state.file_alias_name,
            carried_out(
                lower_blocks(
                    container@.sub_elems,
                    state.file_alias_name@,
                    state.progress(),
                ),
                match r {
                    Ok(done) => Ok(done.progress()),
                    Err(error) => Err(error@),
                },
                old(appeared)@,
                final(appeared)@,
                old(cons)@,
                final(cons)@,
            ),
    {
        proof {
            lemma_node_children(*container);
        }
        let ghost begin = state;
        let mut work = state;
        let ghost elems = container@.sub_elems;
        let ghost file = work.file_alias_name@;
        let ghost whole = lower_blocks(elems, file, work.progress());
        let ghost mut refs: Seq<(Seq<char>, CharacterPositionView)> = Seq::empty();
        let ghost mut warnings: Seq<BlockParseErrorView> = Seq::empty();
        let mut i: usize = 0;
        proof {
            assert(elems.skip(0) =~= elems);
            lemma_after_nothing(whole);
            assert(cons@ + warnings =~= cons@);
        }
        while i < container.sub_elems.len()
            invariant
                0 <= i <= container.sub_elems.len(),
                work.wf(),
                appeared.wf(),
                elems == container@.sub_elems,
                elems.len() == container.sub_elems@.len(),
                forall|k: int| 0 <= k < container.sub_elems@.len() ==> elems[k] == (#[trigger] container.sub_elems@[k])@,
                begin == state,
                work.file_alias_name == begin.file_alias_name,
                file == begin.file_alias_name@,
                whole == lower_blocks(elems, file, begin.progress()),
                whole == lower_blocks(elems.skip(i as int), file, work.progress()).after(
                    refs,
                    warnings,
                ),
                appeared@ == recorded(old(appeared)@, refs),
                cons@ == old(cons)@ + warnings,
            decreases container.sub_elems.len() - i,
        {
            proof {
                assert(elems.skip(i as int).drop_first() =~= elems.skip(i as int + 1));
                assert(elems.skip(i as int)[0] == elems[i as int]);
            }
            if container.sub_elems[i].is_reflectable() {
                let block_node = match &container.sub_elems[i] {
                    SyntaxNodeElement::Leaf(_) => {
                        proof {
                            assert(refs + Seq::<(Seq<char>, CharacterPositionView)>::empty()
                                =~= refs);
                            assert(warnings + Seq::<BlockParseErrorView>::empty() =~= warnings);
                        }
                        return Err(malformed_tree());
                    },
                    SyntaxNodeElement::Node(block_node) => block_node,
                };
                let ghost one = lower_block(block_node@, file, work.progress());
                let ghost appeared_before = appeared@;
                let ghost cons_before = cons@;
                let done = Self::to_block(&mut work, appeared, cons, block_node);
                proof {
                    lemma_carried_out_in_turn(
                        Lowered::<int> { value: Ok(0), refs, warnings },
                        one,
                        old(appeared)@,
                        appeared_before,
                        appeared@,
                        old(cons)@,
                        cons_before,
                        cons@,
                    );
                }
                match done {
                    Err(error) => {
                        return Err(error);
                    },
                    Ok(_) => {
                        proof {
                            lemma_after_after(
                                lower_blocks(elems.skip(i as int + 1), file, work.progress()),
                                refs,
                                warnings,
                                one.refs,
                                one.warnings,
                            );
                            refs = refs + one.refs;
                            warnings = warnings + one.warnings;
                        }
                    },
                }
            }
            i = i + 1;
        }
        proof {
            assert(elems.skip(i as int) =~= Seq::<SyntaxNodeElementView>::empty());
            assert(refs + Seq::<(Seq<char>, CharacterPositionView)>::empty() =~= refs);
            assert(warnings + Seq::<BlockParseErrorView>::empty() =~= warnings);
        }
        Ok(work)
    }

    /// Lowers the syntax tree of the file under the alias
    /// `file_alias_name`, in a run that has chosen `start_rule_id` so far.
    pub fn to_block_map(
        file_alias_name: String,
        start_rule_id: Option<String>,
        appeared: &mut AppearedIds,
        cons: &mut Console,
        tree: &SyntaxTree,
    ) -> (r: Result<FileState, BlockParseError>)
        requires
            old(appeared).wf(),
        ensures
            final(appeared).wf(),
            r matches Ok(state) ==> state.wf() && state.file_alias_name == file_alias_name,
            carried_out(
                lower_file(tree@, file_alias_name@, optional_view(start_rule_id)),
                match r {
                    Ok(state) => Ok(state.progress()),
                    Err(error) => Err(error@),
                },
                old(appeared)@,
                final(appeared)@,
                old(cons)@,
                final(cons)@,
            ),
    {
        let ghost whole = lower_file(tree@, file_alias_name@, optional_view(start_rule_id));
        let root = match tree.get_child_ref() {
            SyntaxNodeElement::Node(root) => root,
            SyntaxNodeElement::Leaf(_) => {
                proof {
                    lemma_carried_out_quietly(whole, appeared@, cons@);
                }
                return Err(malformed_tree());
            },
        };
        let state = FileState { file_alias_name, blocks: StringMap::new(), start_rule_id };
        let done = match root.get_node_child_at(0) {
            Some(container) => Self::to_blocks(state, appeared, cons, container),
            None => {
                proof {
                    lemma_carried_out_quietly(whole, appeared@, cons@);
                }
                Ok(state)
            },
        };
        match done {
            Err(error) => Err(error),
            Ok(state) => {
                let mut state = state;
                let main = Block::new(String::from_str("Main"), Vec::new());
                proof {
                    assert(main@.cmds =~= Seq::<BlockCommandView>::empty());
                }
                state.blocks.insert(String::new(), main);
                Ok(state)
            },
        }
    }
}

/// Round-trip naming: in the block map of a file, every defined rule
/// carries the identifier `<file>.<block>.<rule>`: the alias of the file,
/// the name under which its block stands in the map, and its own name.
pub proof fn lemma_lowered_rules_are_named(
    root: SyntaxNodeElementView,
    file: Seq<char>,
    start: Option<Seq<char>>,
)
    ensures
        lower_file(root, file, start).value matches Ok(done) ==> blocks_named(done.blocks, file),
{
    match root {
        SyntaxNodeElementView::Leaf(_) => {},
        SyntaxNodeElementView::Node(root_node) => {
            let begin = FileProgress { blocks: Seq::empty(), start };
            match node_child_at(root_node, 0) {
                Some(container) => {
                    lemma_blocks_keep_naming(container.sub_elems, file, begin);
                    match lower_blocks(container.sub_elems, file, begin).value {
                        Ok(done) => {
                            lemma_put_keeps_naming(done.blocks, file, Seq::empty(), synthetic_main());
                        },
                        Err(_) => {},
                    }
                },
                None => {
                    lemma_put_keeps_naming(begin.blocks, file, Seq::empty(), synthetic_main());
                },
            }
        },
    }
}

} // verus!
