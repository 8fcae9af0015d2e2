//! The catalog that describes the grammar description language itself. It is
//! written out by hand, with a few builders, in the rule graph that every
//! other grammar is lowered to.

use vstd::prelude::*;
use crate::block::{Block, BlockCommand, BlockCommandView, BlockMap, BlockView};
use crate::catalog::{catalog_rules, lemma_catalog_holds_defined_rules, RuleMap};
use crate::closure::{
    blocks_within, catalog_closed, command_within, commands_within, element_within, group_within,
    key_set, lemma_group_within_more, lemma_rules_after_files_within, rules_within,
};
use crate::position::{empty_position, CharacterPosition};
use crate::rule::{
    lemma_group_children, lemma_views_push, views, ASTReflectionStyle, ASTReflectionStyleView,
    LoopCountView, Rule, RuleElement, RuleElementLookaheadKind, RuleElementLoopCount,
    RuleElementView, RuleExpression, RuleExpressionKind, RuleExpressionKindView,
    RuleExpressionView, RuleGroup, RuleGroupKind, RuleGroupKindView, RuleGroupView, RuleView,
};
use crate::string_map::{has_key, keys_of, lemma_index_of_string_absent, StringMap};
use crate::text::str_is;

verus! {

/// An expression of the given kind and value, reflected under `name`.
pub open spec fn expr_view(kind: RuleExpressionKindView, value: Seq<char>, name: Seq<char>) -> RuleElementView {
    RuleElementView::Expression(
        RuleExpressionView {
            ast_reflection_style: ASTReflectionStyleView::Reflection(name),
            ..RuleExpressionView::plain(empty_position(), kind, value)
        },
    )
}

/// A reference to the rule `id`, reflected under the identifier of the
/// rule.
pub open spec fn id_view(id: Seq<char>) -> RuleElementView {
    expr_view(RuleExpressionKindView::ID, id, id)
}

/// The literal text `value`.
pub open spec fn string_view(value: Seq<char>) -> RuleElementView {
    expr_view(RuleExpressionKindView::String, value, Seq::empty())
}

/// The character class `value`, brackets included.
pub open spec fn char_class_view(value: Seq<char>) -> RuleElementView {
    expr_view(RuleExpressionKindView::CharClass, value, Seq::empty())
}

/// Any one character.
pub open spec fn wildcard_view() -> RuleElementView {
    expr_view(RuleExpressionKindView::Wildcard, "."@, Seq::empty())
}

/// A sequence group without children, reflected under its default name.
pub open spec fn sequence_view() -> RuleElementView {
    RuleElementView::Group(
        RuleGroupView {
            ast_reflection_style: ASTReflectionStyleView::Reflection(Seq::empty()),
            ..RuleGroupView::plain(RuleGroupKindView::Sequence)
        },
    )
}

/// Whether `option` can be set on `elem`: a lookahead, a loop symbol or a
/// reflection mark on any element, and `:` on a group.
pub open spec fn valid_option(elem: RuleElementView, option: Seq<char>) -> bool {
    option == "&"@ || option == "!"@ || option == "?"@ || option == "*"@ || option == "+"@
        || option == "#"@ || option == "##"@ || (elem is Group && option == ":"@)
}

impl RuleElementView {
    /// The element with one more option set: `&` and `!` are its
    /// lookahead, `?`, `*` and `+` its loop count, `#` leaves it out of the
    /// output tree, `##` expands it there, and `:` makes a group an ordered
    /// choice.
    pub open spec fn opt(self, option: Seq<char>) -> RuleElementView {
        match self {
            RuleElementView::Group(group) => RuleElementView::Group(
                if option == "&"@ || option == "!"@ {
                    RuleGroupView {
                        lookahead_kind: RuleElementLookaheadKind::of_symbol(option),
                        ..group
                    }
                } else if option == "?"@ || option == "*"@ || option == "+"@ {
                    RuleGroupView { loop_count: LoopCountView::of_symbol(option), ..group }
                } else if option == "#"@ {
                    RuleGroupView {
                        ast_reflection_style: ASTReflectionStyleView::NoReflection,
                        ..group
                    }
                } else if option == "##"@ {
                    RuleGroupView { ast_reflection_style: ASTReflectionStyleView::Expansion, ..group }
                } else if option == ":"@ {
                    RuleGroupView { kind: RuleGroupKindView::Choice, ..group }
                } else {
                    group
                },
            ),
            RuleElementView::Expression(expr) => RuleElementView::Expression(
                if option == "&"@ || option == "!"@ {
                    RuleExpressionView {
                        lookahead_kind: RuleElementLookaheadKind::of_symbol(option),
                        ..expr
                    }
                } else if option == "?"@ || option == "*"@ || option == "+"@ {
                    RuleExpressionView { loop_count: LoopCountView::of_symbol(option), ..expr }
                } else if option == "#"@ {
                    RuleExpressionView {
                        ast_reflection_style: ASTReflectionStyleView::NoReflection,
                        ..expr
                    }
                } else if option == "##"@ {
                    RuleExpressionView {
                        ast_reflection_style: ASTReflectionStyleView::Expansion,
                        ..expr
                    }
                } else {
                    expr
                },
            ),
        }
    }

    /// The group with one more child at its end.
    pub open spec fn item(self, child: RuleElementView) -> RuleElementView {
        match self {
            RuleElementView::Group(group) => RuleElementView::Group(
                RuleGroupView { sub_elems: group.sub_elems.push(child), ..group },
            ),
            RuleElementView::Expression(_) => self,
        }
    }
}

/// The definition of the rule `id`, without alternatives yet: its root
/// group is an ordered choice that expands into the output tree.
pub open spec fn rule_view(id: Seq<char>) -> BlockCommandView {
    BlockCommandView::Define {
        pos: empty_position(),
        rule: RuleView {
            pos: empty_position(),
            id,
            name: Seq::empty(),
            generics_arg_ids: Seq::empty(),
            func_arg_ids: Seq::empty(),
            group: RuleGroupView {
                ast_reflection_style: ASTReflectionStyleView::Expansion,
                ..RuleGroupView::plain(RuleGroupKindView::Choice)
            },
        },
    }
}

impl BlockCommandView {
    /// The definition with one more alternative at the end of its root
    /// group.
    pub open spec fn alt(self, choice: RuleElementView) -> BlockCommandView {
        match self {
            BlockCommandView::Define { pos, rule } => BlockCommandView::Define {
                pos,
                rule: RuleView {
                    group: RuleGroupView { sub_elems: rule.group.sub_elems.push(choice), ..rule.group },
                    ..rule
                },
            },
            _ => self,
        }
    }
}

/// The block `name` without commands.
pub open spec fn block_view(name: Seq<char>) -> BlockView {
    BlockView { name, cmds: Seq::empty() }
}

impl BlockView {
    /// The block with one more command at its end.
    pub open spec fn cmd(self, command: BlockCommandView) -> BlockView {
        BlockView { cmds: self.cmds.push(command), ..self }
    }
}

/// The identifiers of the rules of the catalog.
pub open spec fn is_bootstrap_id(id: Seq<char>) -> bool {
    id == ".Syntax.FCPEG"@
        || id == ".Symbol.Space"@
        || id == ".Symbol.LineEnd"@
        || id == ".Symbol.EOF"@
        || id == ".Misc.SingleID"@
        || id == ".Misc.ChainID"@
        || id == ".Block.Block"@
        || id == ".Block.Cmd"@
        || id == ".Block.CommentCmd"@
        || id == ".Block.DefineCmd"@
        || id == ".Block.DefineCmdGenericsIDs"@
        || id == ".Block.DefineCmdFuncIDs"@
        || id == ".Block.StartCmd"@
        || id == ".Block.UseCmd"@
        || id == ".Block.UseCmdBlockAlias"@
        || id == ".Rule.InstantPureChoice"@
        || id == ".Rule.PureChoice"@
        || id == ".Rule.Choice"@
        || id == ".Rule.SeqDiv"@
        || id == ".Rule.Seq"@
        || id == ".Rule.SeqElem"@
        || id == ".Rule.Expr"@
        || id == ".Rule.Lookahead"@
        || id == ".Rule.Loop"@
        || id == ".Rule.LoopRange"@
        || id == ".Rule.RandomOrder"@
        || id == ".Rule.RandomOrderRange"@
        || id == ".Rule.ASTReflectionStyle"@
        || id == ".Rule.Num"@
        || id == ".Rule.ID"@
        || id == ".Rule.ArgID"@
        || id == ".Rule.Generics"@
        || id == ".Rule.Func"@
        || id == ".Rule.EscSeq"@
        || id == ".Rule.Str"@
        || id == ".Rule.CharClass"@
        || id == ".Rule.Wildcard"@
}

/// The identifiers of the rules of the catalog, as a set.
pub open spec fn bootstrap_ids() -> Set<Seq<char>> {
    Set::new(|id: Seq<char>| is_bootstrap_id(id))
}

fn expr(kind: RuleExpressionKind, value: &str, name: &str) -> (r: RuleElement)
    requires
        !(kind is Func) && !(kind is Generics),
    ensures
        r@ == expr_view(kind@, value@, name@),
{
    RuleElement::Expression(
        RuleExpression {
            pos: CharacterPosition::get_empty(),
            kind,
            value: String::from_str(value),
            ast_reflection_style: ASTReflectionStyle::Reflection(String::from_str(name)),
            lookahead_kind: RuleElementLookaheadKind::NoLookahead,
            loop_count: RuleElementLoopCount::get_single_loop(),
        },
    )
}

/// A reference to the rule `id`.
pub fn id(rule_id: &str) -> (r: RuleElement)
    ensures
        r@ == id_view(rule_id@),
        is_bootstrap_id(rule_id@) ==> element_within(r@, bootstrap_ids()),
{
    expr(RuleExpressionKind::ID, rule_id, rule_id)
}

/// The literal text `value`.
pub fn string(value: &str) -> (r: RuleElement)
    ensures
        r@ == string_view(value@),
        element_within(r@, bootstrap_ids()),
{
    proof {
        reveal_strlit("");
        assert(""@ =~= Seq::<char>::empty());
    }
    expr(RuleExpressionKind::String, value, "")
}

/// The character class `value`, brackets included.
pub fn char_class(value: &str) -> (r: RuleElement)
    ensures
        r@ == char_class_view(value@),
        element_within(r@, bootstrap_ids()),
{
    proof {
        reveal_strlit("");
        assert(""@ =~= Seq::<char>::empty());
    }
    expr(RuleExpressionKind::CharClass, value, "")
}

/// Any one character.
pub fn wildcard() -> (r: RuleElement)
    ensures
        r@ == wildcard_view(),
        element_within(r@, bootstrap_ids()),
{
    proof {
        reveal_strlit("");
        assert(""@ =~= Seq::<char>::empty());
    }
    expr(RuleExpressionKind::Wildcard, ".", "")
}

/// A sequence group without children, reflected under its default name.
pub fn sequence() -> (r: RuleElement)
    ensures
        r@ == sequence_view(),
        element_within(r@, bootstrap_ids()),
{
    let mut group = RuleGroup::new(RuleGroupKind::Sequence);
    proof {
        lemma_group_children(group);
    }
    group.ast_reflection_style = ASTReflectionStyle::Reflection(String::new());
    proof {
        lemma_group_children(group);
    }
    RuleElement::Group(group)
}

impl RuleElement {
    /// Sets one more option on the element.
    pub fn opt(self, option: &str) -> (r: Self)
        requires
            valid_option(self@, option@),
        ensures
            r@ == self@.opt(option@),
            element_within(self@, bootstrap_ids()) ==> element_within(r@, bootstrap_ids()),
    {
        let symbol = String::from_str(option);
        match self {
            RuleElement::Group(group) => {
                let mut shaped = group;
                proof {
                    lemma_group_children(shaped);
                }
                if str_is(&symbol, "&") || str_is(&symbol, "!") {
                    shaped.lookahead_kind = RuleElementLookaheadKind::new(&symbol);
                } else if str_is(&symbol, "?") || str_is(&symbol, "*") || str_is(&symbol, "+") {
                    shaped.loop_count = RuleElementLoopCount::from_symbol(&symbol);
                } else if str_is(&symbol, "#") {
                    shaped.ast_reflection_style = ASTReflectionStyle::NoReflection;
                } else if str_is(&symbol, "##") {
                    shaped.ast_reflection_style = ASTReflectionStyle::Expansion;
                } else {
                    shaped.kind = RuleGroupKind::Choice;
                }
                proof {
                    lemma_group_children(shaped);
                }
                RuleElement::Group(shaped)
            },
            RuleElement::Expression(expr) => {
                let mut shaped = expr;
                if str_is(&symbol, "&") || str_is(&symbol, "!") {
                    shaped.lookahead_kind = RuleElementLookaheadKind::new(&symbol);
                } else if str_is(&symbol, "?") || str_is(&symbol, "*") || str_is(&symbol, "+") {
                    shaped.loop_count = RuleElementLoopCount::from_symbol(&symbol);
                } else if str_is(&symbol, "#") {
                    shaped.ast_reflection_style = ASTReflectionStyle::NoReflection;
                } else {
                    shaped.ast_reflection_style = ASTReflectionStyle::Expansion;
                }
                RuleElement::Expression(shaped)
            },
        }
    }

    /// Puts one more child at the end of the group.
    pub fn item(self, child: RuleElement) -> (r: Self)
        requires
            self is Group,
        ensures
            r@ == self@.item(child@),
            element_within(self@, bootstrap_ids()) && element_within(child@, bootstrap_ids())
                ==> element_within(r@, bootstrap_ids()),
    {
        match self {
            RuleElement::Group(group) => {
                let mut grown = group;
                proof {
                    lemma_group_children(grown);
                    lemma_views_push(grown.sub_elems@, child);
                }
                grown.sub_elems.push(child);
                proof {
                    lemma_group_children(grown);
                }
                RuleElement::Group(grown)
            },
            RuleElement::Expression(expr) => RuleElement::Expression(expr),
        }
    }
}

/// The definition of the rule `id`, without alternatives yet.
pub fn rule(rule_id: &str) -> (r: BlockCommand)
    ensures
        r@ == rule_view(rule_id@),
        command_within(r@, bootstrap_ids()),
{
    let mut group = RuleGroup::new(RuleGroupKind::Choice);
    proof {
        lemma_group_children(group);
    }
    group.ast_reflection_style = ASTReflectionStyle::Expansion;
    proof {
        lemma_group_children(group);
    }
    let generics_arg_ids: Vec<String> = Vec::new();
    let func_arg_ids: Vec<String> = Vec::new();
    let rule = Rule::new(
        CharacterPosition::get_empty(),
        String::from_str(rule_id),
        String::new(),
        generics_arg_ids,
        func_arg_ids,
        group,
    );
    proof {
        assert(rule@.generics_arg_ids =~= Seq::<Seq<char>>::empty());
        assert(rule@.func_arg_ids =~= Seq::<Seq<char>>::empty());
    }
    BlockCommand::Define { pos: CharacterPosition::get_empty(), rule }
}

impl BlockCommand {
    /// Puts one more alternative at the end of the root group of the
    /// definition.
    pub fn alt(self, choice: RuleElement) -> (r: Self)
        requires
            self is Define,
            choice is Group,
        ensures
            r@ == self@.alt(choice@),
            command_within(self@, bootstrap_ids()) && element_within(choice@, bootstrap_ids())
                ==> command_within(r@, bootstrap_ids()),
    {
        match self {
            BlockCommand::Define { pos, rule } => {
                let mut grown = rule;
                proof {
                    lemma_group_children(grown.group);
                    lemma_views_push(grown.group.sub_elems@, choice);
                }
                grown.group.sub_elems.push(choice);
                proof {
                    lemma_group_children(grown.group);
                }
                BlockCommand::Define { pos, rule: grown }
            },
            other => other,
        }
    }
}

/// The block `name` without commands.
pub fn block(name: &str) -> (r: Block)
    ensures
        r@ == block_view(name@),
        commands_within(r@.cmds, bootstrap_ids()),
{
    let r = Block::new(String::from_str(name), Vec::new());
    proof {
        assert(r@.cmds =~= Seq::<BlockCommandView>::empty());
    }
    r
}

impl Block {
    /// Puts one more command at the end of the block.
    pub fn cmd(self, command: BlockCommand) -> (r: Self)
        ensures
            r@ == self@.cmd(command@),
            commands_within(self@.cmds, bootstrap_ids()) && command_within(command@, bootstrap_ids())
                ==> commands_within(r@.cmds, bootstrap_ids()),
    {
        let mut grown = self;
        proof {
            lemma_views_push(grown.cmds@, command);
        }
        grown.cmds.push(command);
        proof {
            if commands_within(self@.cmds, bootstrap_ids()) && command_within(command@, bootstrap_ids()) {
                assert forall|i: int| 0 <= i < grown@.cmds.len() implies command_within(
                    #[trigger] grown@.cmds[i],
                    bootstrap_ids(),
                ) by {
                    if i < self@.cmds.len() {
                        assert(grown@.cmds[i] == self@.cmds[i]);
                    }
                }
            }
        }
        grown
    }
}

/// `FCPEG <- Symbol.Space*# Symbol.LineEnd*# (Block.Block Symbol.LineEnd+#)* Symbol.LineEnd*# Symbol.Space*# Symbol.EOF#,`
pub open spec fn fcpeg_rule() -> BlockCommandView {
    rule_view(".Syntax.FCPEG"@).alt(
        sequence_view()
            .item(id_view(".Symbol.Space"@).opt("*"@).opt("#"@))
            .item(id_view(".Symbol.LineEnd"@).opt("*"@).opt("#"@))
            .item(sequence_view().opt("*"@)
                .item(sequence_view()
                    .item(id_view(".Block.Block"@))
                    .item(id_view(".Symbol.LineEnd"@).opt("+"@).opt("#"@))))
            .item(id_view(".Symbol.LineEnd"@).opt("*"@).opt("#"@))
            .item(id_view(".Symbol.Space"@).opt("*"@).opt("#"@))
            .item(string_view("\0"@).opt("#"@)),
    )
}

fn get_fcpeg_rule() -> (r: BlockCommand)
    ensures
        r@ == fcpeg_rule(),
        command_within(r@, bootstrap_ids()),
{
    rule(".Syntax.FCPEG").alt(
        sequence()
            .item(id(".Symbol.Space").opt("*").opt("#"))
            .item(id(".Symbol.LineEnd").opt("*").opt("#"))
            .item(sequence().opt("*")
                .item(sequence()
                    .item(id(".Block.Block"))
                    .item(id(".Symbol.LineEnd").opt("+").opt("#"))))
            .item(id(".Symbol.LineEnd").opt("*").opt("#"))
            .item(id(".Symbol.Space").opt("*").opt("#"))
            .item(string("\0").opt("#")),
    )
}

/// `Space <- " ",`
pub open spec fn space_rule() -> BlockCommandView {
    rule_view(".Symbol.Space"@).alt(
        sequence_view()
            .item(string_view(" "@)),
    )
}

fn get_space_rule() -> (r: BlockCommand)
    ensures
        r@ == space_rule(),
        command_within(r@, bootstrap_ids()),
{
    rule(".Symbol.Space").alt(
        sequence()
            .item(string(" ")),
    )
}

/// `LineEnd <- Space* "\n" Space*,`
pub open spec fn line_end_rule() -> BlockCommandView {
    rule_view(".Symbol.LineEnd"@).alt(
        sequence_view()
            .item(id_view(".Symbol.Space"@).opt("*"@))
            .item(string_view("\n"@))
            .item(id_view(".Symbol.Space"@).opt("*"@)),
    )
}

fn get_line_end_rule() -> (r: BlockCommand)
    ensures
        r@ == line_end_rule(),
        command_within(r@, bootstrap_ids()),
{
    rule(".Symbol.LineEnd").alt(
        sequence()
            .item(id(".Symbol.Space").opt("*"))
            .item(string("\n"))
            .item(id(".Symbol.Space").opt("*")),
    )
}

/// `EOF <- "\z",`
pub open spec fn eof_rule() -> BlockCommandView {
    rule_view(".Symbol.EOF"@).alt(
        sequence_view()
            .item(string_view("\0"@).opt("#"@)),
    )
}

fn get_eof_rule() -> (r: BlockCommand)
    ensures
        r@ == eof_rule(),
        command_within(r@, bootstrap_ids()),
{
    rule(".Symbol.EOF").alt(
        sequence()
            .item(string("\0").opt("#")),
    )
}

/// `SingleID <- [a-zA-Z_] [a-zA-Z0-9_]*,`
pub open spec fn single_id_rule() -> BlockCommandView {
    rule_view(".Misc.SingleID"@).alt(
        sequence_view()
            .item(char_class_view("[a-zA-Z_]"@))
            .item(char_class_view("[a-zA-Z0-9_]"@).opt("*"@)),
    )
}

fn get_single_id_rule() -> (r: BlockCommand)
    ensures
        r@ == single_id_rule(),
        command_within(r@, bootstrap_ids()),
{
    rule(".Misc.SingleID").alt(
        sequence()
            .item(char_class("[a-zA-Z_]"))
            .item(char_class("[a-zA-Z0-9_]").opt("*")),
    )
}

/// `ChainID <- SingleID ("."# SingleID)*##,`
pub open spec fn chain_id_rule() -> BlockCommandView {
    rule_view(".Misc.ChainID"@).alt(
        sequence_view()
            .item(id_view(".Misc.SingleID"@))
            .item(sequence_view().opt("*"@).opt("##"@)
                .item(sequence_view()
                    .item(string_view("."@).opt("#"@))
                    .item(id_view(".Misc.SingleID"@)))),
    )
}

fn get_chain_id_rule() -> (r: BlockCommand)
    ensures
        r@ == chain_id_rule(),
        command_within(r@, bootstrap_ids()),
{
    rule(".Misc.ChainID").alt(
        sequence()
            .item(id(".Misc.SingleID"))
            .item(sequence().opt("*").opt("##")
                .item(sequence()
                    .item(string(".").opt("#"))
                    .item(id(".Misc.SingleID")))),
    )
}

/// `Block <- "["# Symbol.Space*# Misc.SingleID Symbol.Space*# "]"# Symbol.Space*# "{"# Symbol.LineEnd+# (Cmd Symbol.LineEnd+#)* "}"#,`
pub open spec fn block_rule() -> BlockCommandView {
    rule_view(".Block.Block"@).alt(
        sequence_view()
            .item(string_view("["@).opt("#"@))
            .item(id_view(".Symbol.Space"@).opt("*"@).opt("#"@))
            .item(id_view(".Misc.SingleID"@))
            .item(id_view(".Symbol.Space"@).opt("*"@).opt("#"@))
            .item(string_view("]"@).opt("#"@))
            .item(id_view(".Symbol.Space"@).opt("*"@).opt("#"@))
            .item(string_view("{"@).opt("#"@))
            .item(id_view(".Symbol.LineEnd"@).opt("+"@).opt("#"@))
            .item(sequence_view().opt("*"@)
                .item(sequence_view()
                    .item(id_view(".Block.Cmd"@))
                    .item(id_view(".Symbol.LineEnd"@).opt("+"@).opt("#"@))))
            .item(string_view("}"@).opt("#"@)),
    )
}

fn get_block_rule() -> (r: BlockCommand)
    ensures
        r@ == block_rule(),
        command_within(r@, bootstrap_ids()),
{
    rule(".Block.Block").alt(
        sequence()
            .item(string("[").opt("#"))
            .item(id(".Symbol.Space").opt("*").opt("#"))
            .item(id(".Misc.SingleID"))
            .item(id(".Symbol.Space").opt("*").opt("#"))
            .item(string("]").opt("#"))
            .item(id(".Symbol.Space").opt("*").opt("#"))
            .item(string("{").opt("#"))
            .item(id(".Symbol.LineEnd").opt("+").opt("#"))
            .item(sequence().opt("*")
                .item(sequence()
                    .item(id(".Block.Cmd"))
                    .item(id(".Symbol.LineEnd").opt("+").opt("#"))))
            .item(string("}").opt("#")),
    )
}

/// `Cmd <- CommentCmd : DefineCmd : StartCmd : UseCmd,`
pub open spec fn cmd_rule() -> BlockCommandView {
    rule_view(".Block.Cmd"@).alt(
        sequence_view().opt(":"@)
            .item(sequence_view()
                .item(id_view(".Block.CommentCmd"@)))
            .item(sequence_view()
                .item(id_view(".Block.DefineCmd"@)))
            .item(sequence_view()
                .item(id_view(".Block.StartCmd"@)))
            .item(sequence_view()
                .item(id_view(".Block.UseCmd"@))),
    )
}

fn get_cmd_rule() -> (r: BlockCommand)
    ensures
        r@ == cmd_rule(),
        command_within(r@, bootstrap_ids()),
{
    rule(".Block.Cmd").alt(
        sequence().opt(":")
            .item(sequence()
                .item(id(".Block.CommentCmd")))
            .item(sequence()
                .item(id(".Block.DefineCmd")))
            .item(sequence()
                .item(id(".Block.StartCmd")))
            .item(sequence()
                .item(id(".Block.UseCmd"))),
    )
}

/// `CommentCmd <- "%"# (!"," !Symbol.LineEnd .)*## ","#,`
pub open spec fn comment_cmd_rule() -> BlockCommandView {
    rule_view(".Block.CommentCmd"@).alt(
        sequence_view()
            .item(string_view("%"@).opt("#"@))
            .item(sequence_view().opt("*"@).opt("##"@)
                .item(sequence_view()
                    .item(string_view(","@).opt("!"@))
                    .item(id_view(".Symbol.LineEnd"@).opt("!"@))
                    .item(wildcard_view())))
            .item(string_view(","@).opt("#"@)),
    )
}

fn get_comment_cmd_rule() -> (r: BlockCommand)
    ensures
        r@ == comment_cmd_rule(),
        command_within(r@, bootstrap_ids()),
{
    rule(".Block.CommentCmd").alt(
        sequence()
            .item(string("%").opt("#"))
            .item(sequence().opt("*").opt("##")
                .item(sequence()
                    .item(string(",").opt("!"))
                    .item(id(".Symbol.LineEnd").opt("!"))
                    .item(wildcard())))
            .item(string(",").opt("#")),
    )
}

/// `DefineCmd <- Misc.SingleID DefineCmdGenericsIDs? DefineCmdFuncIDs? Symbol.Space*# "<-"# Symbol.Space*# Rule.PureChoice Symbol.Space*# ","#,`
pub open spec fn define_cmd_rule() -> BlockCommandView {
    rule_view(".Block.DefineCmd"@).alt(
        sequence_view()
            .item(id_view(".Misc.SingleID"@))
            .item(id_view(".Block.DefineCmdGenericsIDs"@).opt("?"@))
            .item(id_view(".Block.DefineCmdFuncIDs"@).opt("?"@))
            .item(id_view(".Symbol.Space"@).opt("*"@).opt("#"@))
            .item(string_view("<-"@).opt("#"@))
            .item(id_view(".Symbol.Space"@).opt("*"@).opt("#"@))
            .item(id_view(".Rule.PureChoice"@))
            .item(id_view(".Symbol.Space"@).opt("*"@).opt("#"@))
            .item(string_view(","@).opt("#"@)),
    )
}

fn get_define_cmd_rule() -> (r: BlockCommand)
    ensures
        r@ == define_cmd_rule(),
        command_within(r@, bootstrap_ids()),
{
    rule(".Block.DefineCmd").alt(
        sequence()
            .item(id(".Misc.SingleID"))
            .item(id(".Block.DefineCmdGenericsIDs").opt("?"))
            .item(id(".Block.DefineCmdFuncIDs").opt("?"))
            .item(id(".Symbol.Space").opt("*").opt("#"))
            .item(string("<-").opt("#"))
            .item(id(".Symbol.Space").opt("*").opt("#"))
            .item(id(".Rule.PureChoice"))
            .item(id(".Symbol.Space").opt("*").opt("#"))
            .item(string(",").opt("#")),
    )
}

/// `DefineCmdGenericsIDs <- "<"# Rule.ArgID (","# Symbol.Space# Rule.ArgID)*## ">"#,`
pub open spec fn define_cmd_generics_ids_rule() -> BlockCommandView {
    rule_view(".Block.DefineCmdGenericsIDs"@).alt(
        sequence_view()
            .item(string_view("<"@).opt("#"@))
            .item(id_view(".Rule.ArgID"@))
            .item(sequence_view().opt("*"@).opt("##"@)
                .item(string_view(","@).opt("#"@))
                .item(id_view(".Symbol.Space"@).opt("#"@))
                .item(id_view(".Rule.ArgID"@)))
            .item(string_view(">"@).opt("#"@)),
    )
}

fn get_define_cmd_generics_ids_rule() -> (r: BlockCommand)
    ensures
        r@ == define_cmd_generics_ids_rule(),
        command_within(r@, bootstrap_ids()),
{
    rule(".Block.DefineCmdGenericsIDs").alt(
        sequence()
            .item(string("<").opt("#"))
            .item(id(".Rule.ArgID"))
            .item(sequence().opt("*").opt("##")
                .item(string(",").opt("#"))
                .item(id(".Symbol.Space").opt("#"))
                .item(id(".Rule.ArgID")))
            .item(string(">").opt("#")),
    )
}

/// `DefineCmdFuncIDs <- "("# Rule.ArgID (","# Symbol.Space# Rule.ArgID)*## ")"#,`
pub open spec fn define_cmd_func_ids_rule() -> BlockCommandView {
    rule_view(".Block.DefineCmdFuncIDs"@).alt(
        sequence_view()
            .item(string_view("("@).opt("#"@))
            .item(id_view(".Rule.ArgID"@))
            .item(sequence_view().opt("*"@).opt("##"@)
                .item(string_view(","@).opt("#"@))
                .item(id_view(".Symbol.Space"@).opt("#"@))
                .item(id_view(".Rule.ArgID"@)))
            .item(string_view(")"@).opt("#"@)),
    )
}

fn get_define_cmd_func_ids_rule() -> (r: BlockCommand)
    ensures
        r@ == define_cmd_func_ids_rule(),
        command_within(r@, bootstrap_ids()),
{
    rule(".Block.DefineCmdFuncIDs").alt(
        sequence()
            .item(string("(").opt("#"))
            .item(id(".Rule.ArgID"))
            .item(sequence().opt("*").opt("##")
                .item(string(",").opt("#"))
                .item(id(".Symbol.Space").opt("#"))
                .item(id(".Rule.ArgID")))
            .item(string(")").opt("#")),
    )
}

/// `StartCmd <- "+"# Symbol.Space*# "start"# Symbol.Space+# Misc.ChainID Symbol.Space*# ","#,`
pub open spec fn start_cmd_rule() -> BlockCommandView {
    rule_view(".Block.StartCmd"@).alt(
        sequence_view()
            .item(string_view("+"@).opt("#"@))
            .item(id_view(".Symbol.Space"@).opt("*"@).opt("#"@))
            .item(string_view("start"@).opt("#"@))
            .item(id_view(".Symbol.Space"@).opt("+"@).opt("#"@))
            .item(id_view(".Misc.ChainID"@))
            .item(id_view(".Symbol.Space"@).opt("*"@).opt("#"@))
            .item(string_view(","@).opt("#"@)),
    )
}

fn get_start_cmd_rule() -> (r: BlockCommand)
    ensures
        r@ == start_cmd_rule(),
        command_within(r@, bootstrap_ids()),
{
    rule(".Block.StartCmd").alt(
        sequence()
            .item(string("+").opt("#"))
            .item(id(".Symbol.Space").opt("*").opt("#"))
            .item(string("start").opt("#"))
            .item(id(".Symbol.Space").opt("+").opt("#"))
            .item(id(".Misc.ChainID"))
            .item(id(".Symbol.Space").opt("*").opt("#"))
            .item(string(",").opt("#")),
    )
}

/// `UseCmd <- "+"# Symbol.Space*# "use"# Symbol.Space+# Misc.ChainID UseCmdBlockAlias? Symbol.Space*# ","#,`
pub open spec fn use_cmd_rule() -> BlockCommandView {
    rule_view(".Block.UseCmd"@).alt(
        sequence_view()
            .item(string_view("+"@).opt("#"@))
            .item(id_view(".Symbol.Space"@).opt("*"@).opt("#"@))
            .item(string_view("use"@).opt("#"@))
            .item(id_view(".Symbol.Space"@).opt("+"@).opt("#"@))
            .item(id_view(".Misc.ChainID"@))
            .item(id_view(".Block.UseCmdBlockAlias"@).opt("?"@))
            .item(id_view(".Symbol.Space"@).opt("*"@).opt("#"@))
            .item(string_view(","@).opt("#"@)),
    )
}

fn get_use_cmd_rule() -> (r: BlockCommand)
    ensures
        r@ == use_cmd_rule(),
        command_within(r@, bootstrap_ids()),
{
    rule(".Block.UseCmd").alt(
        sequence()
            .item(string("+").opt("#"))
            .item(id(".Symbol.Space").opt("*").opt("#"))
            .item(string("use").opt("#"))
            .item(id(".Symbol.Space").opt("+").opt("#"))
            .item(id(".Misc.ChainID"))
            .item(id(".Block.UseCmdBlockAlias").opt("?"))
            .item(id(".Symbol.Space").opt("*").opt("#"))
            .item(string(",").opt("#")),
    )
}

/// `UseCmdBlockAlias <- Symbol.Space+# "as"# Symbol.Space+# Misc.SingleID,`
pub open spec fn use_cmd_block_alias_rule() -> BlockCommandView {
    rule_view(".Block.UseCmdBlockAlias"@).alt(
        sequence_view()
            .item(id_view(".Symbol.Space"@).opt("+"@).opt("#"@))
            .item(string_view("as"@).opt("#"@))
            .item(id_view(".Symbol.Space"@).opt("+"@).opt("#"@))
            .item(id_view(".Misc.SingleID"@)),
    )
}

fn get_use_cmd_block_alias_rule() -> (r: BlockCommand)
    ensures
        r@ == use_cmd_block_alias_rule(),
        command_within(r@, bootstrap_ids()),
{
    rule(".Block.UseCmdBlockAlias").alt(
        sequence()
            .item(id(".Symbol.Space").opt("+").opt("#"))
            .item(string("as").opt("#"))
            .item(id(".Symbol.Space").opt("+").opt("#"))
            .item(id(".Misc.SingleID")),
    )
}

/// `InstantPureChoice <- Seq (":" Symbol.Space# Seq)*##,`
pub open spec fn instant_pure_choice_rule() -> BlockCommandView {
    rule_view(".Rule.InstantPureChoice"@).alt(
        sequence_view()
            .item(id_view(".Rule.Seq"@))
            .item(sequence_view().opt("*"@).opt("##"@)
                .item(sequence_view().opt("##"@)
                    .item(string_view(":"@))
                    .item(id_view(".Symbol.Space"@).opt("#"@))
                    .item(id_view(".Rule.Seq"@)))),
    )
}

fn get_instant_pure_choice_rule() -> (r: BlockCommand)
    ensures
        r@ == instant_pure_choice_rule(),
        command_within(r@, bootstrap_ids()),
{
    rule(".Rule.InstantPureChoice").alt(
        sequence()
            .item(id(".Rule.Seq"))
            .item(sequence().opt("*").opt("##")
                .item(sequence().opt("##")
                    .item(string(":"))
                    .item(id(".Symbol.Space").opt("#"))
                    .item(id(".Rule.Seq")))),
    )
}

/// `PureChoice <- Seq ((SeqDiv+# ":" SeqDiv+# : "," Symbol.Space#)## Seq)*##,`
pub open spec fn pure_choice_rule() -> BlockCommandView {
    rule_view(".Rule.PureChoice"@).alt(
        sequence_view()
            .item(id_view(".Rule.Seq"@))
            .item(sequence_view().opt("*"@).opt("##"@)
                .item(sequence_view().opt("##"@)
                    .item(sequence_view().opt(":"@)
                        .item(sequence_view().opt("##"@)
                            .item(id_view(".Rule.SeqDiv"@).opt("+"@).opt("#"@))
                            .item(string_view(":"@))
                            .item(id_view(".Rule.SeqDiv"@).opt("+"@).opt("#"@)))
                        .item(sequence_view().opt("##"@)
                            .item(string_view(","@))
                            .item(id_view(".Symbol.Space"@).opt("#"@))))
                    .item(id_view(".Rule.Seq"@)))),
    )
}

fn get_pure_choice_rule() -> (r: BlockCommand)
    ensures
        r@ == pure_choice_rule(),
        command_within(r@, bootstrap_ids()),
{
    rule(".Rule.PureChoice").alt(
        sequence()
            .item(id(".Rule.Seq"))
            .item(sequence().opt("*").opt("##")
                .item(sequence().opt("##")
                    .item(sequence().opt(":")
                        .item(sequence().opt("##")
                            .item(id(".Rule.SeqDiv").opt("+").opt("#"))
                            .item(string(":"))
                            .item(id(".Rule.SeqDiv").opt("+").opt("#")))
                        .item(sequence().opt("##")
                            .item(string(","))
                            .item(id(".Symbol.Space").opt("#"))))
                    .item(id(".Rule.Seq")))),
    )
}

/// `Choice <- "("# PureChoice ")"#,`
pub open spec fn choice_rule() -> BlockCommandView {
    rule_view(".Rule.Choice"@).alt(
        sequence_view()
            .item(string_view("("@).opt("#"@))
            .item(id_view(".Rule.PureChoice"@))
            .item(string_view(")"@).opt("#"@)),
    )
}

fn get_choice_rule() -> (r: BlockCommand)
    ensures
        r@ == choice_rule(),
        command_within(r@, bootstrap_ids()),
{
    rule(".Rule.Choice").alt(
        sequence()
            .item(string("(").opt("#"))
            .item(id(".Rule.PureChoice"))
            .item(string(")").opt("#")),
    )
}

/// `SeqDiv <- Symbol.Space# : "\n"#,`
pub open spec fn seq_div_rule() -> BlockCommandView {
    rule_view(".Rule.SeqDiv"@).alt(
        sequence_view()
            .item(sequence_view().opt(":"@)
                .item(sequence_view()
                    .item(id_view(".Symbol.Space"@).opt("#"@)))
                .item(sequence_view()
                    .item(string_view("\n"@).opt("#"@)))),
    )
}

fn get_seq_div_rule() -> (r: BlockCommand)
    ensures
        r@ == seq_div_rule(),
        command_within(r@, bootstrap_ids()),
{
    rule(".Rule.SeqDiv").alt(
        sequence()
            .item(sequence().opt(":")
                .item(sequence()
                    .item(id(".Symbol.Space").opt("#")))
                .item(sequence()
                    .item(string("\n").opt("#")))),
    )
}

/// `Seq <- SeqElem (SeqDiv+# SeqElem)*##,`
pub open spec fn seq_rule() -> BlockCommandView {
    rule_view(".Rule.Seq"@).alt(
        sequence_view()
            .item(id_view(".Rule.SeqElem"@))
            .item(sequence_view().opt("*"@).opt("##"@)
                .item(sequence_view()
                    .item(sequence_view()
                        .item(id_view(".Rule.SeqDiv"@).opt("+"@).opt("#"@))
                        .item(id_view(".Rule.SeqElem"@))))),
    )
}

fn get_seq_rule() -> (r: BlockCommand)
    ensures
        r@ == seq_rule(),
        command_within(r@, bootstrap_ids()),
{
    rule(".Rule.Seq").alt(
        sequence()
            .item(id(".Rule.SeqElem"))
            .item(sequence().opt("*").opt("##")
                .item(sequence()
                    .item(sequence()
                        .item(id(".Rule.SeqDiv").opt("+").opt("#"))
                        .item(id(".Rule.SeqElem"))))),
    )
}

/// `SeqElem <- Lookahead? (Choice : Expr)## Loop? RandomOrder? ASTReflectionStyle?,`
pub open spec fn seq_elem_rule() -> BlockCommandView {
    rule_view(".Rule.SeqElem"@).alt(
        sequence_view()
            .item(id_view(".Rule.Lookahead"@).opt("?"@))
            .item(sequence_view().opt("##"@)
                .item(sequence_view().opt(":"@)
                    .item(sequence_view()
                        .item(id_view(".Rule.Choice"@)))
                    .item(sequence_view()
                        .item(id_view(".Rule.Expr"@)))))
            .item(id_view(".Rule.Loop"@).opt("?"@))
            .item(id_view(".Rule.RandomOrder"@).opt("?"@))
            .item(id_view(".Rule.ASTReflectionStyle"@).opt("?"@)),
    )
}

fn get_seq_elem_rule() -> (r: BlockCommand)
    ensures
        r@ == seq_elem_rule(),
        command_within(r@, bootstrap_ids()),
{
    rule(".Rule.SeqElem").alt(
        sequence()
            .item(id(".Rule.Lookahead").opt("?"))
            .item(sequence().opt("##")
                .item(sequence().opt(":")
                    .item(sequence()
                        .item(id(".Rule.Choice")))
                    .item(sequence()
                        .item(id(".Rule.Expr")))))
            .item(id(".Rule.Loop").opt("?"))
            .item(id(".Rule.RandomOrder").opt("?"))
            .item(id(".Rule.ASTReflectionStyle").opt("?")),
    )
}

/// `Expr <- ArgID : Generics : Func : ID : Str : CharClass : Wildcard,`
pub open spec fn expr_rule() -> BlockCommandView {
    rule_view(".Rule.Expr"@).alt(
        sequence_view()
            .item(sequence_view().opt(":"@)
                .item(sequence_view()
                    .item(id_view(".Rule.ArgID"@)))
                .item(sequence_view()
                    .item(id_view(".Rule.Generics"@)))
                .item(sequence_view()
                    .item(id_view(".Rule.Func"@)))
                .item(sequence_view()
                    .item(id_view(".Rule.ID"@)))
                .item(sequence_view()
                    .item(id_view(".Rule.Str"@)))
                .item(sequence_view()
                    .item(id_view(".Rule.CharClass"@)))
                .item(sequence_view()
                    .item(id_view(".Rule.Wildcard"@)))),
    )
}

fn get_expr_rule() -> (r: BlockCommand)
    ensures
        r@ == expr_rule(),
        command_within(r@, bootstrap_ids()),
{
    rule(".Rule.Expr").alt(
        sequence()
            .item(sequence().opt(":")
                .item(sequence()
                    .item(id(".Rule.ArgID")))
                .item(sequence()
                    .item(id(".Rule.Generics")))
                .item(sequence()
                    .item(id(".Rule.Func")))
                .item(sequence()
                    .item(id(".Rule.ID")))
                .item(sequence()
                    .item(id(".Rule.Str")))
                .item(sequence()
                    .item(id(".Rule.CharClass")))
                .item(sequence()
                    .item(id(".Rule.Wildcard")))),
    )
}

/// `Lookahead <- "!" : "&",`
pub open spec fn lookahead_rule() -> BlockCommandView {
    rule_view(".Rule.Lookahead"@).alt(
        sequence_view()
            .item(sequence_view().opt(":"@)
                .item(sequence_view()
                    .item(string_view("!"@)))
                .item(sequence_view()
                    .item(string_view("&"@)))),
    )
}

fn get_lookahead_rule() -> (r: BlockCommand)
    ensures
        r@ == lookahead_rule(),
        command_within(r@, bootstrap_ids()),
{
    rule(".Rule.Lookahead").alt(
        sequence()
            .item(sequence().opt(":")
                .item(sequence()
                    .item(string("!")))
                .item(sequence()
                    .item(string("&")))),
    )
}

/// `Loop <- "?" : "*" : "+" : LoopRange,`
pub open spec fn loop_rule() -> BlockCommandView {
    rule_view(".Rule.Loop"@).alt(
        sequence_view()
            .item(sequence_view().opt(":"@)
                .item(sequence_view()
                    .item(string_view("?"@)))
                .item(sequence_view()
                    .item(string_view("*"@)))
                .item(sequence_view()
                    .item(string_view("+"@)))
                .item(sequence_view()
                    .item(id_view(".Rule.LoopRange"@)))),
    )
}

fn get_loop_rule() -> (r: BlockCommand)
    ensures
        r@ == loop_rule(),
        command_within(r@, bootstrap_ids()),
{
    rule(".Rule.Loop").alt(
        sequence()
            .item(sequence().opt(":")
                .item(sequence()
                    .item(string("?")))
                .item(sequence()
                    .item(string("*")))
                .item(sequence()
                    .item(string("+")))
                .item(sequence()
                    .item(id(".Rule.LoopRange")))),
    )
}

/// `LoopRange <- "{"# (Num## : ""##) ","# (Num## : ""##) "}"#,`
pub open spec fn loop_range_rule() -> BlockCommandView {
    rule_view(".Rule.LoopRange"@).alt(
        sequence_view()
            .item(string_view("{"@).opt("#"@))
            .item(sequence_view().opt(":"@)
                .item(sequence_view()
                    .item(id_view(".Rule.Num"@).opt("##"@)))
                .item(sequence_view().opt("##"@)
                    .item(string_view(""@))))
            .item(string_view(","@).opt("#"@))
            .item(sequence_view().opt(":"@)
                .item(sequence_view()
                    .item(id_view(".Rule.Num"@).opt("##"@)))
                .item(sequence_view().opt("##"@)
                    .item(string_view(""@))))
            .item(string_view("}"@).opt("#"@)),
    )
}

fn get_loop_range_rule() -> (r: BlockCommand)
    ensures
        r@ == loop_range_rule(),
        command_within(r@, bootstrap_ids()),
{
    rule(".Rule.LoopRange").alt(
        sequence()
            .item(string("{").opt("#"))
            .item(sequence().opt(":")
                .item(sequence()
                    .item(id(".Rule.Num").opt("##")))
                .item(sequence().opt("##")
                    .item(string(""))))
            .item(string(",").opt("#"))
            .item(sequence().opt(":")
                .item(sequence()
                    .item(id(".Rule.Num").opt("##")))
                .item(sequence().opt("##")
                    .item(string(""))))
            .item(string("}").opt("#")),
    )
}

/// `RandomOrder <- "^"# "RandomOrderRange"?,`
///
/// The second element matches the text `RandomOrderRange` itself; it does not
/// refer to the production of that name.
pub open spec fn random_order_rule() -> BlockCommandView {
    rule_view(".Rule.RandomOrder"@).alt(
        sequence_view()
            .item(string_view("^"@).opt("#"@))
            .item(string_view("RandomOrderRange"@).opt("?"@)),
    )
}

fn get_random_order_rule() -> (r: BlockCommand)
    ensures
        r@ == random_order_rule(),
        command_within(r@, bootstrap_ids()),
{
    rule(".Rule.RandomOrder").alt(
        sequence()
            .item(string("^").opt("#"))
            .item(string("RandomOrderRange").opt("?")),
    )
}

/// `RandomOrderRange <- "["# Num? "ID"#,`
///
/// No production refers to this one, and it ends in the text `ID` where the
/// closing bracket of a range would be. The lowering reads a range as two
/// optional numbers, whatever this production says.
pub open spec fn random_order_range_rule() -> BlockCommandView {
    rule_view(".Rule.RandomOrderRange"@).alt(
        sequence_view()
            .item(string_view("["@).opt("#"@))
            .item(id_view(".Rule.Num"@).opt("?"@))
            .item(string_view("ID"@).opt("#"@)),
    )
}

fn get_random_order_range_rule() -> (r: BlockCommand)
    ensures
        r@ == random_order_range_rule(),
        command_within(r@, bootstrap_ids()),
{
    rule(".Rule.RandomOrderRange").alt(
        sequence()
            .item(string("[").opt("#"))
            .item(id(".Rule.Num").opt("?"))
            .item(string("ID").opt("#")),
    )
}

/// `ASTReflectionStyle <- "##" : "#"# Misc.SingleID?##,`
pub open spec fn ast_reflection_style_rule() -> BlockCommandView {
    rule_view(".Rule.ASTReflectionStyle"@).alt(
        sequence_view()
            .item(sequence_view().opt(":"@)
                .item(sequence_view()
                    .item(string_view("##"@)))
                .item(sequence_view()
                    .item(string_view("#"@).opt("#"@))
                    .item(id_view(".Misc.SingleID"@).opt("?"@).opt("##"@)))),
    )
}

fn get_ast_reflection_style_rule() -> (r: BlockCommand)
    ensures
        r@ == ast_reflection_style_rule(),
        command_within(r@, bootstrap_ids()),
{
    rule(".Rule.ASTReflectionStyle").alt(
        sequence()
            .item(sequence().opt(":")
                .item(sequence()
                    .item(string("##")))
                .item(sequence()
                    .item(string("#").opt("#"))
                    .item(id(".Misc.SingleID").opt("?").opt("##")))),
    )
}

/// `Num <- [0-9]+,`
pub open spec fn num_rule() -> BlockCommandView {
    rule_view(".Rule.Num"@).alt(
        sequence_view()
            .item(char_class_view("[0-9]+"@).opt("+"@)),
    )
}

fn get_num_rule() -> (r: BlockCommand)
    ensures
        r@ == num_rule(),
        command_within(r@, bootstrap_ids()),
{
    rule(".Rule.Num").alt(
        sequence()
            .item(char_class("[0-9]+").opt("+")),
    )
}

/// `ID <- Misc.ChainID,`
pub open spec fn id_rule() -> BlockCommandView {
    rule_view(".Rule.ID"@).alt(
        sequence_view()
            .item(id_view(".Misc.ChainID"@)),
    )
}

fn get_id_rule() -> (r: BlockCommand)
    ensures
        r@ == id_rule(),
        command_within(r@, bootstrap_ids()),
{
    rule(".Rule.ID").alt(
        sequence()
            .item(id(".Misc.ChainID")),
    )
}

/// `ArgID <- "$"# Misc.SingleID##,`
pub open spec fn arg_id_rule() -> BlockCommandView {
    rule_view(".Rule.ArgID"@).alt(
        sequence_view()
            .item(string_view("$"@).opt("#"@))
            .item(id_view(".Misc.SingleID"@).opt("##"@)),
    )
}

fn get_arg_id_rule() -> (r: BlockCommand)
    ensures
        r@ == arg_id_rule(),
        command_within(r@, bootstrap_ids()),
{
    rule(".Rule.ArgID").alt(
        sequence()
            .item(string("$").opt("#"))
            .item(id(".Misc.SingleID").opt("##")),
    )
}

/// `Generics <- Misc.ChainID "<"# InstantPureChoice (","# Symbol.Space# InstantPureChoice)*## ">"#,`
pub open spec fn generics_rule() -> BlockCommandView {
    rule_view(".Rule.Generics"@).alt(
        sequence_view()
            .item(id_view(".Misc.ChainID"@))
            .item(string_view("<"@).opt("#"@))
            .item(id_view(".Rule.InstantPureChoice"@))
            .item(sequence_view().opt("*"@).opt("##"@)
                .item(sequence_view().opt("##"@)
                    .item(string_view(","@).opt("#"@))
                    .item(id_view(".Symbol.Space"@).opt("#"@))
                    .item(id_view(".Rule.InstantPureChoice"@))))
            .item(string_view(">"@).opt("#"@)),
    )
}

fn get_generics_rule() -> (r: BlockCommand)
    ensures
        r@ == generics_rule(),
        command_within(r@, bootstrap_ids()),
{
    rule(".Rule.Generics").alt(
        sequence()
            .item(id(".Misc.ChainID"))
            .item(string("<").opt("#"))
            .item(id(".Rule.InstantPureChoice"))
            .item(sequence().opt("*").opt("##")
                .item(sequence().opt("##")
                    .item(string(",").opt("#"))
                    .item(id(".Symbol.Space").opt("#"))
                    .item(id(".Rule.InstantPureChoice"))))
            .item(string(">").opt("#")),
    )
}

/// `Func <- Misc.ChainID "("# InstantPureChoice (","# Symbol.Space# InstantPureChoice)*## ")"#,`
pub open spec fn func_rule() -> BlockCommandView {
    rule_view(".Rule.Func"@).alt(
        sequence_view()
            .item(id_view(".Misc.ChainID"@))
            .item(string_view("("@).opt("#"@))
            .item(id_view(".Rule.InstantPureChoice"@))
            .item(sequence_view().opt("*"@).opt("##"@)
                .item(sequence_view().opt("##"@)
                    .item(string_view(","@).opt("#"@))
                    .item(id_view(".Symbol.Space"@).opt("#"@))
                    .item(id_view(".Rule.InstantPureChoice"@))))
            .item(string_view(")"@).opt("#"@)),
    )
}

fn get_func_rule() -> (r: BlockCommand)
    ensures
        r@ == func_rule(),
        command_within(r@, bootstrap_ids()),
{
    rule(".Rule.Func").alt(
        sequence()
            .item(id(".Misc.ChainID"))
            .item(string("(").opt("#"))
            .item(id(".Rule.InstantPureChoice"))
            .item(sequence().opt("*").opt("##")
                .item(sequence().opt("##")
                    .item(string(",").opt("#"))
                    .item(id(".Symbol.Space").opt("#"))
                    .item(id(".Rule.InstantPureChoice"))))
            .item(string(")").opt("#")),
    )
}

/// `EscSeq <- "\\"# ("\\" : "\"" : "n" : "t" : "z")##,`
pub open spec fn esc_seq_rule() -> BlockCommandView {
    rule_view(".Rule.EscSeq"@).alt(
        sequence_view()
            .item(string_view("\\"@).opt("#"@))
            .item(sequence_view().opt("##"@)
                .item(sequence_view().opt(":"@)
                    .item(sequence_view()
                        .item(string_view("\\"@)))
                    .item(sequence_view()
                        .item(string_view("\""@)))
                    .item(sequence_view()
                        .item(string_view("n"@)))
                    .item(sequence_view()
                        .item(string_view("t"@)))
                    .item(sequence_view()
                        .item(string_view("z"@))))),
    )
}

fn get_esc_seq_rule() -> (r: BlockCommand)
    ensures
        r@ == esc_seq_rule(),
        command_within(r@, bootstrap_ids()),
{
    rule(".Rule.EscSeq").alt(
        sequence()
            .item(string("\\").opt("#"))
            .item(sequence().opt("##")
                .item(sequence().opt(":")
                    .item(sequence()
                        .item(string("\\")))
                    .item(sequence()
                        .item(string("\"")))
                    .item(sequence()
                        .item(string("n")))
                    .item(sequence()
                        .item(string("t")))
                    .item(sequence()
                        .item(string("z"))))),
    )
}

/// `Str <- "\""# (EscSeq : !("\\" : "\"") .)*## "\""#,`
pub open spec fn str_rule() -> BlockCommandView {
    rule_view(".Rule.Str"@).alt(
        sequence_view()
            .item(string_view("\""@).opt("#"@))
            .item(sequence_view().opt("*"@).opt("##"@)
                .item(sequence_view().opt(":"@)
                    .item(sequence_view()
                        .item(id_view(".Rule.EscSeq"@)))
                    .item(sequence_view()
                        .item(sequence_view().opt("!"@)
                            .item(sequence_view().opt(":"@)
                                .item(sequence_view()
                                    .item(string_view("\\"@)))
                                .item(sequence_view()
                                    .item(string_view("\""@)))))
                        .item(wildcard_view()))))
            .item(string_view("\""@).opt("#"@)),
    )
}

fn get_str_rule() -> (r: BlockCommand)
    ensures
        r@ == str_rule(),
        command_within(r@, bootstrap_ids()),
{
    rule(".Rule.Str").alt(
        sequence()
            .item(string("\"").opt("#"))
            .item(sequence().opt("*").opt("##")
                .item(sequence().opt(":")
                    .item(sequence()
                        .item(id(".Rule.EscSeq")))
                    .item(sequence()
                        .item(sequence().opt("!")
                            .item(sequence().opt(":")
                                .item(sequence()
                                    .item(string("\\")))
                                .item(sequence()
                                    .item(string("\"")))))
                        .item(wildcard()))))
            .item(string("\"").opt("#")),
    )
}

/// `CharClass <- "["# (!"[" !"]" !Symbol.LineEnd ("\\[" : "\\]" : "\\\\" : .)##)+## "]"#,`
pub open spec fn char_class_rule() -> BlockCommandView {
    rule_view(".Rule.CharClass"@).alt(
        sequence_view()
            .item(string_view("["@).opt("#"@))
            .item(sequence_view().opt("+"@).opt("##"@)
                .item(string_view("["@).opt("!"@))
                .item(string_view("]"@).opt("!"@))
                .item(id_view(".Symbol.LineEnd"@).opt("!"@))
                .item(sequence_view().opt("##"@)
                    .item(sequence_view().opt(":"@)
                        .item(sequence_view()
                            .item(string_view("\\["@)))
                        .item(sequence_view()
                            .item(string_view("\\]"@)))
                        .item(sequence_view()
                            .item(string_view("\\\\"@)))
                        .item(sequence_view()
                            .item(wildcard_view())))))
            .item(string_view("]"@).opt("#"@)),
    )
}

fn get_char_class_rule() -> (r: BlockCommand)
    ensures
        r@ == char_class_rule(),
        command_within(r@, bootstrap_ids()),
{
    rule(".Rule.CharClass").alt(
        sequence()
            .item(string("[").opt("#"))
            .item(sequence().opt("+").opt("##")
                .item(string("[").opt("!"))
                .item(string("]").opt("!"))
                .item(id(".Symbol.LineEnd").opt("!"))
                .item(sequence().opt("##")
                    .item(sequence().opt(":")
                        .item(sequence()
                            .item(string("\\[")))
                        .item(sequence()
                            .item(string("\\]")))
                        .item(sequence()
                            .item(string("\\\\")))
                        .item(sequence()
                            .item(wildcard())))))
            .item(string("]").opt("#")),
    )
}

/// `Wildcard <- ".",`
pub open spec fn wildcard_rule() -> BlockCommandView {
    rule_view(".Rule.Wildcard"@).alt(
        sequence_view()
            .item(string_view("."@)),
    )
}

fn get_wildcard_rule() -> (r: BlockCommand)
    ensures
        r@ == wildcard_rule(),
        command_within(r@, bootstrap_ids()),
{
    rule(".Rule.Wildcard").alt(
        sequence()
            .item(string(".")),
    )
}

/// The block `Main`: it holds nothing but the command that starts at the
/// rule `FCPEG` of the block `Syntax`.
pub open spec fn main_block() -> BlockView {
    block_view("Main"@).cmd(
        BlockCommandView::Start {
            pos: empty_position(),
            file_alias_name: Seq::empty(),
            block_name: "Syntax"@,
            rule_name: "FCPEG"@,
        },
    )
}

/// The block `Syntax`: the whole of a grammar source.
pub open spec fn syntax_block() -> BlockView {
    block_view(".Syntax"@)
        .cmd(fcpeg_rule())
}

/// The block `Symbol`: spaces, line ends and the end of the source.
pub open spec fn symbol_block() -> BlockView {
    block_view(".Symbol"@)
        .cmd(space_rule())
        .cmd(line_end_rule())
        .cmd(eof_rule())
}

/// The block `Misc`: identifiers.
pub open spec fn misc_block() -> BlockView {
    block_view(".Misc"@)
        .cmd(single_id_rule())
        .cmd(chain_id_rule())
}

/// The block `Block`: blocks and their commands.
pub open spec fn block_block() -> BlockView {
    block_view(".Block"@)
        .cmd(block_rule())
        .cmd(cmd_rule())
        .cmd(comment_cmd_rule())
        .cmd(define_cmd_rule())
        .cmd(define_cmd_generics_ids_rule())
        .cmd(define_cmd_func_ids_rule())
        .cmd(start_cmd_rule())
        .cmd(use_cmd_rule())
        .cmd(use_cmd_block_alias_rule())
}

/// The block `Rule`: the bodies of rules.
pub open spec fn rule_block() -> BlockView {
    block_view(".Rule"@)
        .cmd(instant_pure_choice_rule())
        .cmd(pure_choice_rule())
        .cmd(choice_rule())
        .cmd(seq_div_rule())
        .cmd(seq_rule())
        .cmd(seq_elem_rule())
        .cmd(expr_rule())
        .cmd(lookahead_rule())
        .cmd(loop_rule())
        .cmd(loop_range_rule())
        .cmd(random_order_rule())
        .cmd(random_order_range_rule())
        .cmd(ast_reflection_style_rule())
        .cmd(num_rule())
        .cmd(id_rule())
        .cmd(arg_id_rule())
        .cmd(generics_rule())
        .cmd(func_rule())
        .cmd(esc_seq_rule())
        .cmd(str_rule())
        .cmd(char_class_rule())
        .cmd(wildcard_rule())
}

/// The blocks of the catalog by name.
pub open spec fn bootstrap_blocks() -> Seq<(Seq<char>, BlockView)> {
    seq![
        ("Main"@, main_block()),
        ("Syntax"@, syntax_block()),
        ("Symbol"@, symbol_block()),
        ("Misc"@, misc_block()),
        ("Block"@, block_block()),
        ("Rule"@, rule_block()),
    ]
}

/// The rules of the catalog by identifier.
pub open spec fn bootstrap_rules() -> Seq<(Seq<char>, RuleView)> {
    catalog_rules(seq![bootstrap_blocks()])
}

proof fn lemma_syntax_block_defines(id: Seq<char>)
    requires
        id == ".Syntax.FCPEG"@,
    ensures
        has_key(bootstrap_rules(), id),
{
    let files = seq![bootstrap_blocks()];
    assert(files[0][1].1 == syntax_block());
    if id == ".Syntax.FCPEG"@ {
        assert(syntax_block().cmds[0] == fcpeg_rule());
        lemma_catalog_holds_defined_rules(files, 0, 1, 0);
    }
}

proof fn lemma_symbol_block_defines(id: Seq<char>)
    requires
        id == ".Symbol.Space"@
            || id == ".Symbol.LineEnd"@
            || id == ".Symbol.EOF"@,
    ensures
        has_key(bootstrap_rules(), id),
{
    let files = seq![bootstrap_blocks()];
    assert(files[0][2].1 == symbol_block());
    if id == ".Symbol.Space"@ {
        assert(symbol_block().cmds[0] == space_rule());
        lemma_catalog_holds_defined_rules(files, 0, 2, 0);
    } else if id == ".Symbol.LineEnd"@ {
        assert(symbol_block().cmds[1] == line_end_rule());
        lemma_catalog_holds_defined_rules(files, 0, 2, 1);
    } else if id == ".Symbol.EOF"@ {
        assert(symbol_block().cmds[2] == eof_rule());
        lemma_catalog_holds_defined_rules(files, 0, 2, 2);
    }
}

proof fn lemma_misc_block_defines(id: Seq<char>)
    requires
        id == ".Misc.SingleID"@
            || id == ".Misc.ChainID"@,
    ensures
        has_key(bootstrap_rules(), id),
{
    let files = seq![bootstrap_blocks()];
    assert(files[0][3].1 == misc_block());
    if id == ".Misc.SingleID"@ {
        assert(misc_block().cmds[0] == single_id_rule());
        lemma_catalog_holds_defined_rules(files, 0, 3, 0);
    } else if id == ".Misc.ChainID"@ {
        assert(misc_block().cmds[1] == chain_id_rule());
        lemma_catalog_holds_defined_rules(files, 0, 3, 1);
    }
}

proof fn lemma_block_block_defines(id: Seq<char>)
    requires
        id == ".Block.Block"@
            || id == ".Block.Cmd"@
            || id == ".Block.CommentCmd"@
            || id == ".Block.DefineCmd"@
            || id == ".Block.DefineCmdGenericsIDs"@
            || id == ".Block.DefineCmdFuncIDs"@
            || id == ".Block.StartCmd"@
            || id == ".Block.UseCmd"@
            || id == ".Block.UseCmdBlockAlias"@,
    ensures
        has_key(bootstrap_rules(), id),
{
    let files = seq![bootstrap_blocks()];
    assert(files[0][4].1 == block_block());
    if id == ".Block.Block"@ {
        assert(block_block().cmds[0] == block_rule());
        lemma_catalog_holds_defined_rules(files, 0, 4, 0);
    } else if id == ".Block.Cmd"@ {
        assert(block_block().cmds[1] == cmd_rule());
        lemma_catalog_holds_defined_rules(files, 0, 4, 1);
    } else if id == ".Block.CommentCmd"@ {
        assert(block_block().cmds[2] == comment_cmd_rule());
        lemma_catalog_holds_defined_rules(files, 0, 4, 2);
    } else if id == ".Block.DefineCmd"@ {
        assert(block_block().cmds[3] == define_cmd_rule());
        lemma_catalog_holds_defined_rules(files, 0, 4, 3);
    } else if id == ".Block.DefineCmdGenericsIDs"@ {
        assert(block_block().cmds[4] == define_cmd_generics_ids_rule());
        lemma_catalog_holds_defined_rules(files, 0, 4, 4);
    } else if id == ".Block.DefineCmdFuncIDs"@ {
        assert(block_block().cmds[5] == define_cmd_func_ids_rule());
        lemma_catalog_holds_defined_rules(files, 0, 4, 5);
    } else if id == ".Block.StartCmd"@ {
        assert(block_block().cmds[6] == start_cmd_rule());
        lemma_catalog_holds_defined_rules(files, 0, 4, 6);
    } else if id == ".Block.UseCmd"@ {
        assert(block_block().cmds[7] == use_cmd_rule());
        lemma_catalog_holds_defined_rules(files, 0, 4, 7);
    } else if id == ".Block.UseCmdBlockAlias"@ {
        assert(block_block().cmds[8] == use_cmd_block_alias_rule());
        lemma_catalog_holds_defined_rules(files, 0, 4, 8);
    }
}

proof fn lemma_rule_block_defines(id: Seq<char>)
    requires
        id == ".Rule.InstantPureChoice"@
            || id == ".Rule.PureChoice"@
            || id == ".Rule.Choice"@
            || id == ".Rule.SeqDiv"@
            || id == ".Rule.Seq"@
            || id == ".Rule.SeqElem"@
            || id == ".Rule.Expr"@
            || id == ".Rule.Lookahead"@
            || id == ".Rule.Loop"@
            || id == ".Rule.LoopRange"@
            || id == ".Rule.RandomOrder"@
            || id == ".Rule.RandomOrderRange"@
            || id == ".Rule.ASTReflectionStyle"@
            || id == ".Rule.Num"@
            || id == ".Rule.ID"@
            || id == ".Rule.ArgID"@
            || id == ".Rule.Generics"@
            || id == ".Rule.Func"@
            || id == ".Rule.EscSeq"@
            || id == ".Rule.Str"@
            || id == ".Rule.CharClass"@
            || id == ".Rule.Wildcard"@,
    ensures
        has_key(bootstrap_rules(), id),
{
    let files = seq![bootstrap_blocks()];
    assert(files[0][5].1 == rule_block());
    if id == ".Rule.InstantPureChoice"@ {
        assert(rule_block().cmds[0] == instant_pure_choice_rule());
        lemma_catalog_holds_defined_rules(files, 0, 5, 0);
    } else if id == ".Rule.PureChoice"@ {
        assert(rule_block().cmds[1] == pure_choice_rule());
        lemma_catalog_holds_defined_rules(files, 0, 5, 1);
    } else if id == ".Rule.Choice"@ {
        assert(rule_block().cmds[2] == choice_rule());
        lemma_catalog_holds_defined_rules(files, 0, 5, 2);
    } else if id == ".Rule.SeqDiv"@ {
        assert(rule_block().cmds[3] == seq_div_rule());
        lemma_catalog_holds_defined_rules(files, 0, 5, 3);
    } else if id == ".Rule.Seq"@ {
        assert(rule_block().cmds[4] == seq_rule());
        lemma_catalog_holds_defined_rules(files, 0, 5, 4);
    } else if id == ".Rule.SeqElem"@ {
        assert(rule_block().cmds[5] == seq_elem_rule());
        lemma_catalog_holds_defined_rules(files, 0, 5, 5);
    } else if id == ".Rule.Expr"@ {
        assert(rule_block().cmds[6] == expr_rule());
        lemma_catalog_holds_defined_rules(files, 0, 5, 6);
    } else if id == ".Rule.Lookahead"@ {
        assert(rule_block().cmds[7] == lookahead_rule());
        lemma_catalog_holds_defined_rules(files, 0, 5, 7);
    } else if id == ".Rule.Loop"@ {
        assert(rule_block().cmds[8] == loop_rule());
        lemma_catalog_holds_defined_rules(files, 0, 5, 8);
    } else if id == ".Rule.LoopRange"@ {
        assert(rule_block().cmds[9] == loop_range_rule());
        lemma_catalog_holds_defined_rules(files, 0, 5, 9);
    } else if id == ".Rule.RandomOrder"@ {
        assert(rule_block().cmds[10] == random_order_rule());
        lemma_catalog_holds_defined_rules(files, 0, 5, 10);
    } else if id == ".Rule.RandomOrderRange"@ {
        assert(rule_block().cmds[11] == random_order_range_rule());
        lemma_catalog_holds_defined_rules(files, 0, 5, 11);
    } else if id == ".Rule.ASTReflectionStyle"@ {
        assert(rule_block().cmds[12] == ast_reflection_style_rule());
        lemma_catalog_holds_defined_rules(files, 0, 5, 12);
    } else if id == ".Rule.Num"@ {
        assert(rule_block().cmds[13] == num_rule());
        lemma_catalog_holds_defined_rules(files, 0, 5, 13);
    } else if id == ".Rule.ID"@ {
        assert(rule_block().cmds[14] == id_rule());
        lemma_catalog_holds_defined_rules(files, 0, 5, 14);
    } else if id == ".Rule.ArgID"@ {
        assert(rule_block().cmds[15] == arg_id_rule());
        lemma_catalog_holds_defined_rules(files, 0, 5, 15);
    } else if id == ".Rule.Generics"@ {
        assert(rule_block().cmds[16] == generics_rule());
        lemma_catalog_holds_defined_rules(files, 0, 5, 16);
    } else if id == ".Rule.Func"@ {
        assert(rule_block().cmds[17] == func_rule());
        lemma_catalog_holds_defined_rules(files, 0, 5, 17);
    } else if id == ".Rule.EscSeq"@ {
        assert(rule_block().cmds[18] == esc_seq_rule());
        lemma_catalog_holds_defined_rules(files, 0, 5, 18);
    } else if id == ".Rule.Str"@ {
        assert(rule_block().cmds[19] == str_rule());
        lemma_catalog_holds_defined_rules(files, 0, 5, 19);
    } else if id == ".Rule.CharClass"@ {
        assert(rule_block().cmds[20] == char_class_rule());
        lemma_catalog_holds_defined_rules(files, 0, 5, 20);
    } else if id == ".Rule.Wildcard"@ {
        assert(rule_block().cmds[21] == wildcard_rule());
        lemma_catalog_holds_defined_rules(files, 0, 5, 21);
    }
}

/// Every identifier of the catalog leads to a rule of the catalog.
pub proof fn lemma_bootstrap_ids_defined(id: Seq<char>)
    requires
        is_bootstrap_id(id),
    ensures
        has_key(bootstrap_rules(), id),
{
    if id == ".Syntax.FCPEG"@ {
        lemma_syntax_block_defines(id);
    } else if id == ".Symbol.Space"@ || id == ".Symbol.LineEnd"@ || id == ".Symbol.EOF"@ {
        lemma_symbol_block_defines(id);
    } else if id == ".Misc.SingleID"@ || id == ".Misc.ChainID"@ {
        lemma_misc_block_defines(id);
    } else if id == ".Block.Block"@ || id == ".Block.Cmd"@ || id == ".Block.CommentCmd"@ || id == ".Block.DefineCmd"@ || id == ".Block.DefineCmdGenericsIDs"@ || id == ".Block.DefineCmdFuncIDs"@ || id == ".Block.StartCmd"@ || id == ".Block.UseCmd"@ || id == ".Block.UseCmdBlockAlias"@ {
        lemma_block_block_defines(id);
    } else if id == ".Rule.InstantPureChoice"@ || id == ".Rule.PureChoice"@ || id == ".Rule.Choice"@ || id == ".Rule.SeqDiv"@ || id == ".Rule.Seq"@ || id == ".Rule.SeqElem"@ || id == ".Rule.Expr"@ || id == ".Rule.Lookahead"@ || id == ".Rule.Loop"@ || id == ".Rule.LoopRange"@ || id == ".Rule.RandomOrder"@ || id == ".Rule.RandomOrderRange"@ || id == ".Rule.ASTReflectionStyle"@ || id == ".Rule.Num"@ || id == ".Rule.ID"@ || id == ".Rule.ArgID"@ || id == ".Rule.Generics"@ || id == ".Rule.Func"@ || id == ".Rule.EscSeq"@ || id == ".Rule.Str"@ || id == ".Rule.CharClass"@ || id == ".Rule.Wildcard"@ {
        lemma_rule_block_defines(id);
    }
}

/// The catalog that describes the grammar description language.
pub struct FCPEGBlock {}

impl FCPEGBlock {
    /// The blocks of the catalog. Every reference to a rule in them names
    /// a rule of the catalog.
    pub fn get_block_map() -> (r: BlockMap)
        ensures
            r.wf(),
            r@ == bootstrap_blocks(),
            blocks_within(r@, bootstrap_ids()),
    {
        let mut block_map: BlockMap = StringMap::new();
        proof {
            reveal_strlit("Main");
            reveal_strlit("Syntax");
            reveal_strlit("Symbol");
            reveal_strlit("Misc");
            reveal_strlit("Block");
            reveal_strlit("Rule");
            assert("Main"@[1] == 'a' && "Syntax"@[1] == 'y' && "Symbol"@[2] == 'm' && "Syntax"@[2]
                == 'n' && "Misc"@[1] == 'i' && "Block"@[1] == 'l' && "Rule"@[1] == 'u');
        }
        block_map.insert(String::from_str("Main"), Self::get_main_block());
        proof {
            lemma_index_of_string_absent(keys_of(block_map@), "Syntax"@);
        }
        block_map.insert(String::from_str("Syntax"), Self::get_syntax_block());
        proof {
            lemma_index_of_string_absent(keys_of(block_map@), "Symbol"@);
        }
        block_map.insert(String::from_str("Symbol"), Self::get_symbol_block());
        proof {
            lemma_index_of_string_absent(keys_of(block_map@), "Misc"@);
        }
        block_map.insert(String::from_str("Misc"), Self::get_misc_block());
        proof {
            lemma_index_of_string_absent(keys_of(block_map@), "Block"@);
        }
        block_map.insert(String::from_str("Block"), Self::get_block_block());
        proof {
            lemma_index_of_string_absent(keys_of(block_map@), "Rule"@);
        }
        block_map.insert(String::from_str("Rule"), Self::get_rule_block());
        proof {
            assert(block_map@ =~= bootstrap_blocks());
        }
        block_map
    }

    /// The catalog itself: the rules of the blocks by identifier, with the
    /// start rule `.Syntax.FCPEG`.
    pub fn get_rule_map() -> (r: RuleMap)
        ensures
            r.wf(),
            r@.rules == bootstrap_rules(),
            r@.start_rule_id == ".Syntax.FCPEG"@,
            catalog_closed(r@),
    {
        let mut block_maps: Vec<BlockMap> = Vec::new();
        block_maps.push(Self::get_block_map());
        proof {
            let files = seq![bootstrap_blocks()];
            assert(views(block_maps@) =~= files);
            lemma_bootstrap_ids_defined(".Syntax.FCPEG"@);
            assert(rules_within(Seq::<(Seq<char>, RuleView)>::empty(), bootstrap_ids()));
            lemma_rules_after_files_within(Seq::empty(), files, bootstrap_ids());
            assert forall|id: Seq<char>| bootstrap_ids().contains(id) implies key_set(
                bootstrap_rules(),
            ).contains(id) by {
                lemma_bootstrap_ids_defined(id);
            }
            assert forall|i: int| 0 <= i < bootstrap_rules().len() implies group_within(
                (#[trigger] bootstrap_rules()[i]).1.group,
                key_set(bootstrap_rules()),
            ) by {
                lemma_group_within_more(
                    bootstrap_rules()[i].1.group,
                    bootstrap_ids(),
                    key_set(bootstrap_rules()),
                );
            }
        }
        RuleMap::new(&block_maps, String::from_str(".Syntax.FCPEG"))
    }

    fn get_main_block() -> (r: Block)
        ensures
            r@ == main_block(),
            commands_within(r@.cmds, bootstrap_ids()),
    {
        block("Main").cmd(
            BlockCommand::Start {
                pos: CharacterPosition::get_empty(),
                file_alias_name: String::new(),
                block_name: String::from_str("Syntax"),
                rule_name: String::from_str("FCPEG"),
            },
        )
    }

    fn get_syntax_block() -> (r: Block)
        ensures
            r@ == syntax_block(),
            commands_within(r@.cmds, bootstrap_ids()),
    {
        block(".Syntax")
            .cmd(get_fcpeg_rule())
    }

    fn get_symbol_block() -> (r: Block)
        ensures
            r@ == symbol_block(),
            commands_within(r@.cmds, bootstrap_ids()),
    {
        block(".Symbol")
            .cmd(get_space_rule())
            .cmd(get_line_end_rule())
            .cmd(get_eof_rule())
    }

    fn get_misc_block() -> (r: Block)
        ensures
            r@ == misc_block(),
            commands_within(r@.cmds, bootstrap_ids()),
    {
        block(".Misc")
            .cmd(get_single_id_rule())
            .cmd(get_chain_id_rule())
    }

    fn get_block_block() -> (r: Block)
        ensures
            r@ == block_block(),
            commands_within(r@.cmds, bootstrap_ids()),
    {
        block(".Block")
            .cmd(get_block_rule())
            .cmd(get_cmd_rule())
            .cmd(get_comment_cmd_rule())
            .cmd(get_define_cmd_rule())
            .cmd(get_define_cmd_generics_ids_rule())
            .cmd(get_define_cmd_func_ids_rule())
            .cmd(get_start_cmd_rule())
            .cmd(get_use_cmd_rule())
            .cmd(get_use_cmd_block_alias_rule())
    }

    fn get_rule_block() -> (r: Block)
        ensures
            r@ == rule_block(),
            commands_within(r@.cmds, bootstrap_ids()),
    {
        block(".Rule")
            .cmd(get_instant_pure_choice_rule())
            .cmd(get_pure_choice_rule())
            .cmd(get_choice_rule())
            .cmd(get_seq_div_rule())
            .cmd(get_seq_rule())
            .cmd(get_seq_elem_rule())
            .cmd(get_expr_rule())
            .cmd(get_lookahead_rule())
            .cmd(get_loop_rule())
            .cmd(get_loop_range_rule())
            .cmd(get_random_order_rule())
            .cmd(get_random_order_range_rule())
            .cmd(get_ast_reflection_style_rule())
            .cmd(get_num_rule())
            .cmd(get_id_rule())
            .cmd(get_arg_id_rule())
            .cmd(get_generics_rule())
            .cmd(get_func_rule())
            .cmd(get_esc_seq_rule())
            .cmd(get_str_rule())
            .cmd(get_char_class_rule())
            .cmd(get_wildcard_rule())
    }
}

} // verus!
