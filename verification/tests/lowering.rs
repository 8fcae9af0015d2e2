use fcpeg::block::{Block, BlockCommand, BlockMap};
use fcpeg::blockparser::{BlockParser, FCPEGFile};
use fcpeg::catalog::RuleMap;
use fcpeg::command::BlockState;
use fcpeg::element::{collapse, find_separator, to_decorations, to_loop_range, to_string_value, to_string_vec};
use fcpeg::error::{BlockParseError, Console};
use fcpeg::position::CharacterPosition;
use fcpeg::resolve::{to_rule_id, AppearedIds, Scope};
use fcpeg::rule::{
    ASTReflectionStyle, Infinitable, Rule, RuleElement, RuleElementLookaheadKind,
    RuleElementLoopCount, RuleExpression, RuleExpressionKind, RuleGroup, RuleGroupKind,
};
use fcpeg::string_map::StringMap;
use fcpeg::tree::{SyntaxLeaf, SyntaxNode, SyntaxNodeElement, SyntaxTree};

// Builders for syntax trees in the shape in which the grammar of the
// language reflects a source.

fn at(index: usize) -> CharacterPosition {
    CharacterPosition::new(Some("main.fcpeg".to_string()), index)
}

fn leaf(value: &str, index: usize) -> SyntaxNodeElement {
    SyntaxNodeElement::Leaf(SyntaxLeaf::new(
        at(index),
        value.to_string(),
        ASTReflectionStyle::Reflection(String::new()),
    ))
}

fn hidden_leaf(value: &str, index: usize) -> SyntaxNodeElement {
    SyntaxNodeElement::Leaf(SyntaxLeaf::new(at(index), value.to_string(), ASTReflectionStyle::NoReflection))
}

fn node(name: &str, children: Vec<SyntaxNodeElement>) -> SyntaxNodeElement {
    SyntaxNodeElement::Node(SyntaxNode::new(children, ASTReflectionStyle::Reflection(name.to_string())))
}

fn as_node(elem: SyntaxNodeElement) -> SyntaxNode {
    match elem {
        SyntaxNodeElement::Node(node) => node,
        SyntaxNodeElement::Leaf(_) => panic!("a node was expected"),
    }
}

fn single_id(name: &str, index: usize) -> SyntaxNodeElement {
    node(".Misc.SingleID", vec![leaf(name, index)])
}

fn chain_id(parts: &[&str], index: usize) -> SyntaxNodeElement {
    let mut children = Vec::new();
    let mut offset = index;
    for part in parts {
        children.push(single_id(part, offset));
        offset += part.len() + 1;
    }
    node(".Misc.ChainID", children)
}

fn id_expr(parts: &[&str], index: usize) -> SyntaxNodeElement {
    node(".Rule.Expr", vec![node(".Rule.ID", vec![chain_id(parts, index)])])
}

fn str_expr(pieces: Vec<SyntaxNodeElement>) -> SyntaxNodeElement {
    node(".Rule.Expr", vec![node(".Rule.Str", pieces)])
}

fn plain_str_expr(text: &str, index: usize) -> SyntaxNodeElement {
    str_expr(vec![leaf(text, index)])
}

fn escape(character: &str, index: usize) -> SyntaxNodeElement {
    node(".Rule.EscSeq", vec![leaf(character, index)])
}

fn seq_elem(parts: Vec<SyntaxNodeElement>) -> SyntaxNodeElement {
    node(".Rule.SeqElem", parts)
}

fn seq(elems: Vec<SyntaxNodeElement>) -> SyntaxNodeElement {
    node(".Rule.Seq", elems)
}

fn pure_choice(children: Vec<SyntaxNodeElement>) -> SyntaxNodeElement {
    node(".Rule.PureChoice", children)
}

fn choice_body(children: Vec<SyntaxNodeElement>) -> SyntaxNodeElement {
    node(".Rule.Choice", vec![pure_choice(children)])
}

fn loop_symbol(symbol: &str) -> SyntaxNodeElement {
    node(".Rule.Loop", vec![leaf(symbol, 0)])
}

fn bound(digits: Option<&str>) -> SyntaxNodeElement {
    match digits {
        Some(digits) => node("", vec![leaf(digits, 0)]),
        None => leaf("", 0),
    }
}

fn loop_range(min: Option<&str>, max: Option<&str>) -> SyntaxNodeElement {
    node(".Rule.Loop", vec![node(".Rule.LoopRange", vec![bound(min), bound(max)])])
}

fn loop_exact(digits: &str) -> SyntaxNodeElement {
    node(".Rule.Loop", vec![node(".Rule.LoopRange", vec![bound(Some(digits))])])
}

fn lookahead(symbol: &str) -> SyntaxNodeElement {
    node(".Rule.Lookahead", vec![leaf(symbol, 0)])
}

fn random_order(range: Option<(Option<&str>, Option<&str>)>) -> SyntaxNodeElement {
    match range {
        Some((min, max)) => node(
            ".Rule.RandomOrder",
            vec![node(".Rule.RandomOrderRange", vec![bound(min), bound(max)])],
        ),
        None => node(".Rule.RandomOrder", vec![]),
    }
}

fn reflection_name(name: &str) -> SyntaxNodeElement {
    node(".Rule.ASTReflectionStyle", vec![leaf(name, 0)])
}

fn reflection_none() -> SyntaxNodeElement {
    node(".Rule.ASTReflectionStyle", vec![])
}

fn reflection_expansion() -> SyntaxNodeElement {
    node(".Rule.ASTReflectionStyle", vec![leaf("##", 0)])
}

fn define_cmd(name: &str, index: usize, body: Vec<SyntaxNodeElement>) -> SyntaxNodeElement {
    node(".Block.DefineCmd", vec![single_id(name, index), pure_choice(body)])
}

fn arg_id(name: &str, index: usize) -> SyntaxNodeElement {
    node(".Rule.ArgID", vec![leaf(name, index)])
}

fn define_cmd_with_params(
    name: &str,
    index: usize,
    generics: Vec<SyntaxNodeElement>,
    funcs: Vec<SyntaxNodeElement>,
    body: Vec<SyntaxNodeElement>,
) -> SyntaxNodeElement {
    node(
        ".Block.DefineCmd",
        vec![
            single_id(name, index),
            node(".Block.DefineCmdGenericsIDs", generics),
            node(".Block.DefineCmdFuncIDs", funcs),
            pure_choice(body),
        ],
    )
}

fn start_cmd(parts: &[&str], index: usize) -> SyntaxNodeElement {
    node(".Block.StartCmd", vec![chain_id(parts, index)])
}

fn use_cmd(parts: &[&str], alias: Option<&str>, index: usize) -> SyntaxNodeElement {
    let mut children = vec![chain_id(parts, index)];
    if let Some(alias) = alias {
        children.push(node(".Block.UseCmdBlockAlias", vec![single_id(alias, index + 20)]));
    }
    node(".Block.UseCmd", children)
}

fn comment_cmd(text: &str, index: usize) -> SyntaxNodeElement {
    node(".Block.CommentCmd", vec![leaf(text, index)])
}

fn block(name: &str, index: usize, cmds: Vec<SyntaxNodeElement>) -> SyntaxNodeElement {
    let entries = cmds.into_iter().map(|cmd| node(".Block.Cmd", vec![cmd])).collect();
    node(".Block.Block", vec![single_id(name, index), node("", entries)])
}

fn source(blocks: Vec<SyntaxNodeElement>) -> SyntaxTree {
    SyntaxTree::new(node(".Syntax.FCPEG", vec![node("", blocks)]))
}

/// The body `"text"`: one sequence that holds one string.
fn string_body(text: &str, index: usize) -> Vec<SyntaxNodeElement> {
    vec![seq(vec![seq_elem(vec![plain_str_expr(text, index)])])]
}

/// The body that refers to one rule by the given chain.
fn reference_body(parts: &[&str], index: usize) -> Vec<SyntaxNodeElement> {
    vec![seq(vec![seq_elem(vec![id_expr(parts, index)])])]
}

fn scope(file: &str, block: &str) -> Scope {
    Scope { file_alias_name: file.to_string(), block_name: block.to_string(), block_alias_map: StringMap::new() }
}

fn empty_pos() -> CharacterPosition {
    CharacterPosition::get_empty()
}

fn default_style() -> ASTReflectionStyle {
    ASTReflectionStyle::Reflection(String::new())
}

fn once() -> RuleElementLoopCount {
    RuleElementLoopCount::new(1, Infinitable::Normal(1))
}

fn plain_expression(pos: CharacterPosition, kind: RuleExpressionKind, value: &str) -> RuleExpression {
    RuleExpression {
        pos,
        kind,
        value: value.to_string(),
        ast_reflection_style: default_style(),
        lookahead_kind: RuleElementLookaheadKind::NoLookahead,
        loop_count: once(),
    }
}

/// A group as the lowering makes it for an alternative or for a choice.
fn plain_group(kind: RuleGroupKind, sub_elems: Vec<RuleElement>) -> RuleGroup {
    RuleGroup {
        kind,
        sub_elems,
        ast_reflection_style: ASTReflectionStyle::NoReflection,
        lookahead_kind: RuleElementLookaheadKind::NoLookahead,
        loop_count: once(),
    }
}

/// A group as the lowering makes it for an element without marks.
fn element_group(kind: RuleGroupKind, sub_elems: Vec<RuleElement>) -> RuleGroup {
    RuleGroup { ast_reflection_style: default_style(), ..plain_group(kind, sub_elems) }
}

fn string_sequence(text: &str) -> RuleGroup {
    plain_group(
        RuleGroupKind::Sequence,
        vec![RuleElement::Expression(plain_expression(empty_pos(), RuleExpressionKind::String, text))],
    )
}

fn root_of(body: RuleGroup) -> RuleGroup {
    RuleGroup {
        kind: RuleGroupKind::Sequence,
        sub_elems: vec![RuleElement::Group(body)],
        ast_reflection_style: ASTReflectionStyle::Expansion,
        lookahead_kind: RuleElementLookaheadKind::NoLookahead,
        loop_count: once(),
    }
}

fn lower_choice(scope: &Scope, children: Vec<SyntaxNodeElement>) -> (Result<RuleGroup, BlockParseError>, AppearedIds, Console) {
    let mut appeared: AppearedIds = StringMap::new();
    let mut cons = Console::new();
    let choice = as_node(pure_choice(children));
    let result = BlockParser::to_rule_choice_elem(scope, &mut appeared, &mut cons, &choice);
    (result, appeared, cons)
}

fn lower_element(scope: &Scope, parts: Vec<SyntaxNodeElement>) -> (Result<RuleElement, BlockParseError>, AppearedIds, Console) {
    let mut appeared: AppearedIds = StringMap::new();
    let mut cons = Console::new();
    let elem = as_node(seq_elem(parts));
    let result = BlockParser::to_rule_element(scope, &mut appeared, &mut cons, &elem);
    (result, appeared, cons)
}

fn parse_one(file: &str, tree: SyntaxTree) -> (Result<BlockMap, BlockParseError>, BlockParser, Console) {
    let mut parser = BlockParser::new();
    let mut cons = Console::new();
    let result = parser.parse(&mut cons, file.to_string(), &tree);
    (result, parser, cons)
}

fn run(files: Vec<FCPEGFile>) -> (Result<RuleMap, ()>, Console) {
    let mut cons = Console::new();
    let result = BlockParser::get_rule_map(&mut cons, &files);
    (result, cons)
}

fn defined_rule(block_map: &BlockMap, block_name: &str, index: usize) -> Rule {
    let block: &Block = block_map.get(&block_name.to_string()).expect("the block is missing");
    match &block.cmds[index] {
        BlockCommand::Define { rule, .. } => rule.clone(),
        _ => panic!("a definition was expected"),
    }
}

// Whole runs.

#[test]
fn a_start_command_and_a_string_rule_make_a_catalog() {
    // [Main]{+start Syntax.X,} [Syntax]{X<-"a",}
    let tree = source(vec![
        block("Main", 1, vec![start_cmd(&["Syntax", "X"], 13)]),
        block("Syntax", 26, vec![define_cmd("X", 34, string_body("a", 38))]),
    ]);
    let (result, cons) = run(vec![FCPEGFile::new(String::new(), tree)]);
    let catalog = result.expect("the catalog is missing");
    assert_eq!(cons.logs, vec![]);
    assert_eq!(catalog.start_rule_id, ".Syntax.X");
    assert_eq!(catalog.rule_map.keys, vec![".Syntax.X".to_string()]);
    let rule = catalog.get_rule(&".Syntax.X".to_string()).expect("the rule is missing");
    assert_eq!(rule.id, ".Syntax.X");
    assert_eq!(rule.name, "X");
    assert_eq!(rule.pos, at(34));
    assert_eq!(rule.generics_arg_ids, Vec::<String>::new());
    assert_eq!(rule.func_arg_ids, Vec::<String>::new());
    assert_eq!(rule.group, root_of(string_sequence("a")));
}

#[test]
fn a_start_rule_that_is_not_defined_is_unknown() {
    // [Main]{+start Syntax.X,}
    let tree = source(vec![block("Main", 1, vec![start_cmd(&["Syntax", "X"], 13)])]);
    let (result, cons) = run(vec![FCPEGFile::new(String::new(), tree)]);
    assert_eq!(result, Err(()));
    assert_eq!(
        cons.logs,
        vec![BlockParseError::UnknownRuleID { pos: empty_pos(), rule_id: ".Syntax.X".to_string() }]
    );
}

#[test]
fn an_alias_for_a_block_of_another_file_resolves_to_that_file() {
    // [Main]{+use f2.Main as O,+start Main.X,X<-O.R,} and, under the alias f2, [Main]{R<-"r",}
    let main = source(vec![block(
        "Main",
        1,
        vec![
            use_cmd(&["f2", "Main"], Some("O"), 11),
            start_cmd(&["Main", "X"], 32),
            define_cmd("X", 40, reference_body(&["O", "R"], 43)),
        ],
    )]);
    let other = source(vec![block("Main", 1, vec![define_cmd("R", 7, string_body("r", 11))])]);
    let (result, cons) = run(vec![
        FCPEGFile::new(String::new(), main),
        FCPEGFile::new("f2".to_string(), other),
    ]);
    let catalog = result.expect("the catalog is missing");
    assert_eq!(cons.logs, vec![]);
    assert_eq!(catalog.start_rule_id, ".Main.X");
    assert!(catalog.contains_key(&"f2.Main.R".to_string()));
    let rule = catalog.get_rule(&".Main.X".to_string()).expect("the rule is missing");
    let expected = plain_group(
        RuleGroupKind::Sequence,
        vec![RuleElement::Expression(plain_expression(at(43), RuleExpressionKind::ID, "f2.Main.R"))],
    );
    assert_eq!(rule.group, root_of(expected));
}

#[test]
fn an_escape_that_is_not_defined_is_an_error_at_its_character() {
    // [A]{R<-"\q",}
    let body = vec![seq(vec![seq_elem(vec![str_expr(vec![escape("q", 9)])])])];
    let tree = source(vec![block("A", 1, vec![define_cmd("R", 4, body)])]);
    let (result, _, cons) = parse_one("", tree);
    assert_eq!(result, Err(BlockParseError::UnknownEscapeSequenceCharacter { pos: at(9) }));
    assert_eq!(cons.logs, vec![]);
}

#[test]
fn a_loop_from_zero_to_zero_is_invalid() {
    // [A]{R<-"a"{0,0},}
    let body = vec![seq(vec![seq_elem(vec![plain_str_expr("a", 8), loop_range(Some("0"), Some("0"))])])];
    let tree = source(vec![block("A", 1, vec![define_cmd("R", 4, body)])]);
    let (result, _, cons) = parse_one("", tree);
    assert_eq!(result, Err(BlockParseError::InvalidLoopCount { pos: empty_pos() }));
    assert_eq!(cons.logs, vec![]);
}

#[test]
fn mixed_separators_are_one_error() {
    // [A]{R<-"a" : "b" , "c",}
    let body = vec![
        seq(vec![seq_elem(vec![plain_str_expr("a", 8)])]),
        leaf(":", 11),
        seq(vec![seq_elem(vec![plain_str_expr("b", 14)])]),
        leaf(",", 17),
        seq(vec![seq_elem(vec![plain_str_expr("c", 20)])]),
    ];
    let tree = source(vec![block("A", 1, vec![define_cmd("R", 4, body)])]);
    let (result, cons) = run(vec![FCPEGFile::new(String::new(), tree)]);
    assert_eq!(result, Err(()));
    assert_eq!(
        cons.logs,
        vec![BlockParseError::UnexpectedToken {
            pos: at(17),
            unexpected_token: ",".to_string(),
            expected_str: "':'".to_string(),
        }]
    );
}

// Naming and resolution.

#[test]
fn a_defined_rule_stands_under_file_block_and_rule() {
    let tree = source(vec![block("Syntax", 1, vec![define_cmd("Expr", 10, string_body("e", 18))])]);
    let (result, parser, cons) = parse_one("lib", tree);
    let block_map = result.expect("the block map is missing");
    assert_eq!(cons.logs, vec![]);
    assert_eq!(parser.start_rule_id, None);
    let rule = defined_rule(&block_map, "Syntax", 0);
    assert_eq!(rule.id, "lib.Syntax.Expr");
    assert_eq!(rule.name, "Expr");
    let catalog = RuleMap::new(&vec![block_map], "lib.Syntax.Expr".to_string());
    assert!(catalog.contains_key(&"lib.Syntax.Expr".to_string()));
    assert!(!catalog.contains_key(&".Syntax.Expr".to_string()));
    assert_eq!(catalog.get_rule(&"lib.Syntax.Expr".to_string()), Some(&rule));
}

#[test]
fn a_block_map_ends_with_the_synthetic_main_block() {
    let tree = source(vec![
        block("Main", 1, vec![start_cmd(&["Syntax", "X"], 13)]),
        block("Syntax", 26, vec![define_cmd("X", 34, string_body("a", 38))]),
    ]);
    let (result, parser, _) = parse_one("", tree);
    let block_map = result.expect("the block map is missing");
    assert_eq!(block_map.keys, vec!["Main".to_string(), "Syntax".to_string(), String::new()]);
    assert_eq!(block_map.get(&String::new()), Some(&Block::new("Main".to_string(), vec![])));
    assert_eq!(parser.start_rule_id, Some(".Syntax.X".to_string()));
    let main = block_map.get(&"Main".to_string()).expect("the block is missing");
    assert_eq!(
        main.cmds,
        vec![BlockCommand::Start {
            pos: empty_pos(),
            file_alias_name: String::new(),
            block_name: "Syntax".to_string(),
            rule_name: "X".to_string(),
        }]
    );
}

#[test]
fn a_source_without_blocks_has_only_the_synthetic_main_block() {
    let tree = SyntaxTree::new(node(".Syntax.FCPEG", vec![]));
    let (result, parser, cons) = parse_one("", tree);
    let block_map = result.expect("the block map is missing");
    assert_eq!(block_map.keys, vec![String::new()]);
    assert_eq!(block_map.values, vec![Block::new("Main".to_string(), vec![])]);
    assert_eq!(parser.start_rule_id, None);
    assert_eq!(cons.logs, vec![]);
}

#[test]
fn a_root_that_is_a_leaf_is_an_internal_error() {
    let tree = SyntaxTree::new(leaf("x", 0));
    let (result, _, _) = parse_one("", tree);
    assert_eq!(
        result,
        Err(BlockParseError::InternalError { msg: "invalid syntax tree structure".to_string() })
    );
}

#[test]
fn identifiers_of_one_two_and_three_parts_resolve() {
    let mut here = scope("f", "B");
    here.block_alias_map.insert("O".to_string(), ("f2".to_string(), "Main".to_string()));
    let mut cons = Console::new();
    let pos = at(5);
    assert_eq!(to_rule_id(&mut cons, &pos, &vec!["R".to_string()], &here), Ok("f.B.R".to_string()));
    assert_eq!(
        to_rule_id(&mut cons, &pos, &vec!["O".to_string(), "R".to_string()], &here),
        Ok("f2.Main.R".to_string())
    );
    assert_eq!(
        to_rule_id(&mut cons, &pos, &vec!["g".to_string(), "C".to_string(), "R".to_string()], &here),
        Ok("g.C.R".to_string())
    );
    assert_eq!(cons.logs, vec![]);
    assert_eq!(
        to_rule_id(&mut cons, &pos, &vec![], &here),
        Err(BlockParseError::InternalError { msg: "invalid id expression".to_string() })
    );
    let four = vec!["a".to_string(), "b".to_string(), "c".to_string(), "d".to_string()];
    assert_eq!(
        to_rule_id(&mut cons, &pos, &four, &here),
        Err(BlockParseError::InternalError { msg: "invalid id expression".to_string() })
    );
}

#[test]
fn the_later_declaration_of_an_alias_stands() {
    let mut here = scope("", "Main");
    here.block_alias_map.insert("O".to_string(), ("f2".to_string(), "Main".to_string()));
    here.block_alias_map.insert("O".to_string(), ("f3".to_string(), "Other".to_string()));
    let mut cons = Console::new();
    assert_eq!(
        to_rule_id(&mut cons, &at(0), &vec!["O".to_string(), "R".to_string()], &here),
        Ok("f3.Other.R".to_string())
    );
}

#[test]
fn an_alias_that_is_not_declared_is_not_found() {
    let here = scope("", "Main");
    let mut cons = Console::new();
    assert_eq!(
        to_rule_id(&mut cons, &at(7), &vec!["O".to_string(), "R".to_string()], &here),
        Err(BlockParseError::BlockAliasNotFound { pos: at(7), block_alias_name: "O".to_string() })
    );
    assert_eq!(cons.logs, vec![]);
}

#[test]
fn an_alias_lasts_to_the_end_of_its_block() {
    // [Main]{+use Other as O,}[Next]{X<-O.R,}
    let tree = source(vec![
        block("Main", 1, vec![use_cmd(&["Other"], Some("O"), 11)]),
        block("Next", 30, vec![define_cmd("X", 36, reference_body(&["O", "R"], 39))]),
    ]);
    let (result, _, _) = parse_one("", tree);
    assert_eq!(
        result,
        Err(BlockParseError::BlockAliasNotFound { pos: at(39), block_alias_name: "O".to_string() })
    );
}

#[test]
fn a_private_rule_of_another_block_raises_a_warning() {
    let here = scope("", "Main");
    let mut cons = Console::new();
    let id = vec!["".to_string(), "Other".to_string(), "_Hidden".to_string()];
    assert_eq!(to_rule_id(&mut cons, &at(3), &id, &here), Ok(".Other._Hidden".to_string()));
    assert_eq!(
        cons.logs,
        vec![BlockParseError::AttemptToAccessPrivateItem {
            pos: at(3),
            item_id: ".Other._Hidden".to_string(),
        }]
    );
}

#[test]
fn a_private_rule_of_the_same_block_raises_no_warning() {
    let mut here = scope("", "Main");
    here.block_alias_map.insert("Me".to_string(), ("".to_string(), "Main".to_string()));
    let mut cons = Console::new();
    assert_eq!(to_rule_id(&mut cons, &at(3), &vec!["_Hidden".to_string()], &here), Ok(".Main._Hidden".to_string()));
    assert_eq!(
        to_rule_id(&mut cons, &at(3), &vec!["Me".to_string(), "_Hidden".to_string()], &here),
        Ok(".Main._Hidden".to_string())
    );
    // A block of the same name in another file is not told apart.
    let far = vec!["f2".to_string(), "Main".to_string(), "_Hidden".to_string()];
    assert_eq!(to_rule_id(&mut cons, &at(3), &far, &here), Ok("f2.Main._Hidden".to_string()));
    assert_eq!(cons.logs, vec![]);
}

#[test]
fn use_commands_name_a_block_and_an_alias() {
    let one = as_node(use_cmd(&["Other"], None, 0));
    assert_eq!(
        BlockParser::to_use_cmd(&"f".to_string(), &one),
        Ok(BlockCommand::Use {
            pos: empty_pos(),
            file_alias_name: "f".to_string(),
            block_name: "Other".to_string(),
            block_alias_name: "Other".to_string(),
        })
    );
    let two = as_node(use_cmd(&["f2", "Other"], None, 0));
    assert_eq!(
        BlockParser::to_use_cmd(&"f".to_string(), &two),
        Ok(BlockCommand::Use {
            pos: empty_pos(),
            file_alias_name: "f2".to_string(),
            block_name: "Other".to_string(),
            block_alias_name: "Other".to_string(),
        })
    );
    let named = as_node(use_cmd(&["Other"], Some("O"), 0));
    assert_eq!(
        BlockParser::to_use_cmd(&"f".to_string(), &named),
        Ok(BlockCommand::Use {
            pos: empty_pos(),
            file_alias_name: "f".to_string(),
            block_name: "Other".to_string(),
            block_alias_name: "O".to_string(),
        })
    );
    let three = as_node(use_cmd(&["a", "b", "c"], None, 0));
    assert_eq!(
        BlockParser::to_use_cmd(&"f".to_string(), &three),
        Err(BlockParseError::InternalError { msg: "invalid chain ID length on use command".to_string() })
    );
}

#[test]
fn start_commands_name_a_rule_by_two_or_three_parts() {
    let two = as_node(start_cmd(&["Syntax", "X"], 9));
    assert_eq!(
        BlockParser::to_start_cmd(&two),
        Ok(BlockCommand::Start {
            pos: empty_pos(),
            file_alias_name: String::new(),
            block_name: "Syntax".to_string(),
            rule_name: "X".to_string(),
        })
    );
    let three = as_node(start_cmd(&["f2", "Syntax", "X"], 9));
    assert_eq!(
        BlockParser::to_start_cmd(&three),
        Ok(BlockCommand::Start {
            pos: empty_pos(),
            file_alias_name: "f2".to_string(),
            block_name: "Syntax".to_string(),
            rule_name: "X".to_string(),
        })
    );
    let one = as_node(start_cmd(&["X"], 9));
    assert_eq!(
        BlockParser::to_start_cmd(&one),
        Err(BlockParseError::InvalidID { pos: at(9), id: "X".to_string() })
    );
    let four = as_node(start_cmd(&["a", "b", "c", "d"], 9));
    assert_eq!(
        BlockParser::to_start_cmd(&four),
        Err(BlockParseError::InvalidID { pos: at(9), id: "a.b.c.d".to_string() })
    );
}

#[test]
fn a_start_command_with_a_file_alias_chooses_a_rule_of_that_file() {
    let tree = source(vec![block("Main", 1, vec![start_cmd(&["f2", "Syntax", "X"], 13)])]);
    let (result, parser, _) = parse_one("", tree);
    assert!(result.is_ok());
    assert_eq!(parser.start_rule_id, Some("f2.Syntax.X".to_string()));
}

#[test]
fn a_second_start_command_is_one_error() {
    let tree = source(vec![block(
        "Main",
        1,
        vec![start_cmd(&["Syntax", "X"], 13), start_cmd(&["Syntax", "Y"], 30)],
    )]);
    let (result, cons) = run(vec![FCPEGFile::new(String::new(), tree)]);
    assert_eq!(result, Err(()));
    assert_eq!(cons.logs, vec![BlockParseError::DuplicatedStartCommand { pos: empty_pos() }]);
}

#[test]
fn a_start_command_outside_main_is_an_error() {
    let tree = source(vec![block("Syntax", 1, vec![start_cmd(&["Syntax", "X"], 13)])]);
    let (result, parser, _) = parse_one("", tree);
    assert_eq!(result, Err(BlockParseError::StartCommandOutsideMainBlock { pos: empty_pos() }));
    assert_eq!(parser.start_rule_id, None);
}

#[test]
fn start_commands_of_other_files_choose_nothing() {
    let tree = source(vec![block(
        "Main",
        1,
        vec![start_cmd(&["Syntax", "X"], 13), start_cmd(&["Syntax", "Y"], 30)],
    )]);
    let (result, parser, cons) = parse_one("f2", tree);
    let block_map = result.expect("the block map is missing");
    assert_eq!(parser.start_rule_id, None);
    assert_eq!(cons.logs, vec![]);
    assert_eq!(block_map.get(&"Main".to_string()).expect("the block is missing").cmds.len(), 2);
}

#[test]
fn comments_keep_their_text() {
    let tree = source(vec![block("Main", 1, vec![comment_cmd(" a note", 8)])]);
    let (result, _, _) = parse_one("", tree);
    let block_map = result.expect("the block map is missing");
    assert_eq!(
        block_map.get(&"Main".to_string()).expect("the block is missing").cmds,
        vec![BlockCommand::Comment { pos: empty_pos(), value: " a note".to_string() }]
    );
}

#[test]
fn a_command_of_an_unknown_kind_is_an_internal_error() {
    let tree = source(vec![block("Main", 1, vec![node(".Block.OtherCmd", vec![])])]);
    let (result, _, _) = parse_one("", tree);
    assert_eq!(
        result,
        Err(BlockParseError::InternalError { msg: "invalid node name '.Block.OtherCmd'".to_string() })
    );
}

#[test]
fn a_definition_without_a_body_is_an_internal_error() {
    let cmd = node(".Block.DefineCmd", vec![single_id("X", 3)]);
    let tree = source(vec![block("Main", 1, vec![cmd])]);
    let (result, _, _) = parse_one("", tree);
    assert_eq!(result, Err(BlockParseError::InternalError { msg: "pure choice not found".to_string() }));
}

// Names.

#[test]
fn names_that_are_not_in_pascal_case_raise_warnings() {
    let tree = source(vec![block("main", 1, vec![define_cmd("x", 8, string_body("a", 12))])]);
    let (result, _, cons) = parse_one("", tree);
    let block_map = result.expect("the block map is missing");
    assert_eq!(
        cons.logs,
        vec![
            BlockParseError::NamingRuleViolation { pos: at(1), id: "main".to_string() },
            BlockParseError::NamingRuleViolation { pos: at(8), id: "x".to_string() },
        ]
    );
    assert_eq!(defined_rule(&block_map, "main", 0).id, ".main.x");
}

#[test]
fn two_blocks_of_one_name_are_an_error() {
    let tree = source(vec![
        block("A", 1, vec![define_cmd("X", 4, string_body("a", 8))]),
        block("A", 20, vec![define_cmd("Y", 24, string_body("b", 28))]),
    ]);
    let (result, _, _) = parse_one("", tree);
    assert_eq!(result, Err(BlockParseError::DuplicatedBlockName { pos: at(20), block_name: "A".to_string() }));
}

#[test]
fn two_rules_of_one_name_in_a_block_are_an_error() {
    let tree = source(vec![block(
        "A",
        1,
        vec![define_cmd("X", 4, string_body("a", 8)), define_cmd("X", 14, string_body("b", 18))],
    )]);
    let (result, _, _) = parse_one("", tree);
    assert_eq!(result, Err(BlockParseError::DuplicatedRuleName { pos: at(14), rule_name: "X".to_string() }));
}

#[test]
fn rules_of_one_name_in_two_blocks_are_two_rules() {
    let tree = source(vec![
        block("A", 1, vec![define_cmd("X", 4, string_body("a", 8))]),
        block("B", 20, vec![define_cmd("X", 24, string_body("b", 28))]),
    ]);
    let (result, _, _) = parse_one("", tree);
    let block_map = result.expect("the block map is missing");
    assert_eq!(defined_rule(&block_map, "A", 0).id, ".A.X");
    assert_eq!(defined_rule(&block_map, "B", 0).id, ".B.X");
}

#[test]
fn a_repeated_parameter_raises_a_warning_and_is_kept() {
    let cmd = define_cmd_with_params(
        "Pair",
        4,
        vec![arg_id("T", 10), arg_id("U", 14), arg_id("T", 18)],
        vec![arg_id("a", 22), arg_id("a", 26)],
        string_body("p", 32),
    );
    let tree = source(vec![block("A", 1, vec![cmd])]);
    let (result, _, cons) = parse_one("", tree);
    let block_map = result.expect("the block map is missing");
    let rule = defined_rule(&block_map, "A", 0);
    assert_eq!(rule.generics_arg_ids, vec!["T".to_string(), "U".to_string(), "T".to_string()]);
    assert_eq!(rule.func_arg_ids, vec!["a".to_string(), "a".to_string()]);
    assert_eq!(
        cons.logs,
        vec![
            BlockParseError::DuplicatedArgumentID { pos: at(18), arg_id: "T".to_string() },
            BlockParseError::DuplicatedArgumentID { pos: at(26), arg_id: "a".to_string() },
        ]
    );
}

#[test]
fn generic_and_function_parameters_do_not_collide() {
    let cmd = define_cmd_with_params("Pair", 4, vec![arg_id("T", 10)], vec![arg_id("T", 22)], string_body("p", 32));
    let tree = source(vec![block("A", 1, vec![cmd])]);
    let (result, _, cons) = parse_one("", tree);
    assert!(result.is_ok());
    assert_eq!(cons.logs, vec![]);
}

// The run over several files.

#[test]
fn two_files_under_one_alias_end_the_run() {
    let first = source(vec![block("Main", 1, vec![start_cmd(&["Main", "X"], 13)])]);
    let second = source(vec![block("lib", 1, vec![])]);
    let third = source(vec![block("Lib", 1, vec![])]);
    let (result, cons) = run(vec![
        FCPEGFile::new(String::new(), first),
        FCPEGFile::new("f2".to_string(), second),
        FCPEGFile::new("f2".to_string(), third),
    ]);
    assert_eq!(result, Err(()));
    // The files are lowered first, so their warnings stand before the error.
    assert_eq!(
        cons.logs,
        vec![
            BlockParseError::NamingRuleViolation { pos: at(1), id: "lib".to_string() },
            BlockParseError::DuplicatedFileAliasName { file_alias_name: "f2".to_string() },
        ]
    );
}

#[test]
fn a_missing_start_command_is_reported_before_a_shared_alias() {
    let first = source(vec![block("Main", 1, vec![])]);
    let second = source(vec![block("Lib", 1, vec![])]);
    let third = source(vec![block("Lib", 1, vec![])]);
    let (result, cons) = run(vec![
        FCPEGFile::new(String::new(), first),
        FCPEGFile::new("f2".to_string(), second),
        FCPEGFile::new("f2".to_string(), third),
    ]);
    assert_eq!(result, Err(()));
    assert_eq!(cons.logs, vec![BlockParseError::NoStartCommandInMainBlock]);
}

#[test]
fn a_file_in_error_ends_the_run_before_assembly() {
    // No start command, and an error in the only file: the error of the file alone.
    let tree = source(vec![block("Main", 1, vec![]), block("Main", 10, vec![])]);
    let (result, cons) = run(vec![FCPEGFile::new(String::new(), tree)]);
    assert_eq!(result, Err(()));
    assert_eq!(
        cons.logs,
        vec![BlockParseError::DuplicatedBlockName { pos: at(10), block_name: "Main".to_string() }]
    );
}

#[test]
fn an_error_leaves_the_state_of_the_block_as_it_was() {
    let mut appeared: AppearedIds = StringMap::new();
    let mut cons = Console::new();
    // A start command outside the block `Main`.
    let mut state = BlockState::new("".to_string(), "Syntax".to_string(), Some(".Main.X".to_string()));
    let start = as_node(start_cmd(&["Syntax", "Y"], 9));
    assert_eq!(
        BlockParser::to_block_cmd(&mut state, &mut appeared, &mut cons, &start),
        Err(BlockParseError::StartCommandOutsideMainBlock { pos: empty_pos() })
    );
    assert_eq!(state.start_rule_id, Some(".Main.X".to_string()));
    assert_eq!(state.cmds, vec![]);
    // A second start command in the block `Main` of the top-level file.
    let mut state = BlockState::new("".to_string(), "Main".to_string(), None);
    let first = as_node(start_cmd(&["Syntax", "X"], 9));
    assert_eq!(BlockParser::to_block_cmd(&mut state, &mut appeared, &mut cons, &first), Ok(()));
    assert_eq!(state.start_rule_id, Some(".Syntax.X".to_string()));
    assert_eq!(
        BlockParser::to_block_cmd(&mut state, &mut appeared, &mut cons, &start),
        Err(BlockParseError::DuplicatedStartCommand { pos: empty_pos() })
    );
    assert_eq!(state.start_rule_id, Some(".Syntax.X".to_string()));
    assert_eq!(state.cmds.len(), 1);
    assert_eq!(cons.logs, vec![]);
}

#[test]
fn a_top_level_file_without_main_has_no_catalog() {
    let tree = source(vec![block("Syntax", 1, vec![define_cmd("X", 9, string_body("a", 13))])]);
    let (result, cons) = run(vec![FCPEGFile::new(String::new(), tree)]);
    assert_eq!(result, Err(()));
    assert_eq!(
        cons.logs,
        vec![BlockParseError::MainBlockNotDefined, BlockParseError::NoStartCommandInMainBlock]
    );
}

#[test]
fn a_run_without_a_top_level_file_has_no_catalog() {
    // The start command of another file chooses nothing.
    let tree = source(vec![block(
        "Main",
        1,
        vec![start_cmd(&["Main", "X"], 9), define_cmd("X", 20, string_body("a", 24))],
    )]);
    let (result, cons) = run(vec![FCPEGFile::new("f2".to_string(), tree)]);
    assert_eq!(result, Err(()));
    assert_eq!(
        cons.logs,
        vec![BlockParseError::MainBlockNotDefined, BlockParseError::NoStartCommandInMainBlock]
    );
    let (result, cons) = run(vec![]);
    assert_eq!(result, Err(()));
    assert_eq!(
        cons.logs,
        vec![BlockParseError::MainBlockNotDefined, BlockParseError::NoStartCommandInMainBlock]
    );
}

#[test]
fn a_main_block_without_a_start_command_has_no_catalog() {
    let tree = source(vec![block("Main", 1, vec![define_cmd("X", 9, string_body("a", 13))])]);
    let (result, cons) = run(vec![FCPEGFile::new(String::new(), tree)]);
    assert_eq!(result, Err(()));
    assert_eq!(cons.logs, vec![BlockParseError::NoStartCommandInMainBlock]);
}

#[test]
fn every_unknown_identifier_is_reported_once_at_its_first_reference() {
    // [Main]{+start Main.X, X<-A B A, Y<-B C,}
    let refs = |names: &[(&str, usize)]| {
        vec![seq(names.iter().map(|(name, index)| seq_elem(vec![id_expr(&[name], *index)])).collect())]
    };
    let tree = source(vec![block(
        "Main",
        1,
        vec![
            start_cmd(&["Main", "X"], 13),
            define_cmd("X", 22, refs(&[("A", 25), ("B", 27), ("A", 29)])),
            define_cmd("Y", 32, refs(&[("B", 35), ("C", 37), ("X", 39)])),
        ],
    )]);
    let (result, cons) = run(vec![FCPEGFile::new(String::new(), tree)]);
    assert_eq!(result, Err(()));
    assert_eq!(
        cons.logs,
        vec![
            BlockParseError::UnknownRuleID { pos: at(25), rule_id: ".Main.A".to_string() },
            BlockParseError::UnknownRuleID { pos: at(27), rule_id: ".Main.B".to_string() },
            BlockParseError::UnknownRuleID { pos: at(37), rule_id: ".Main.C".to_string() },
        ]
    );
}

#[test]
fn references_may_come_before_definitions_and_cross_files() {
    let main = source(vec![block(
        "Main",
        1,
        vec![start_cmd(&["Main", "X"], 13), define_cmd("X", 22, reference_body(&["lib", "Words", "Word"], 25))],
    )]);
    let lib = source(vec![block("Words", 1, vec![define_cmd("Word", 8, string_body("w", 15))])]);
    let (result, cons) = run(vec![FCPEGFile::new(String::new(), main), FCPEGFile::new("lib".to_string(), lib)]);
    let catalog = result.expect("the catalog is missing");
    assert_eq!(cons.logs, vec![]);
    assert_eq!(catalog.rule_map.keys, vec![".Main.X".to_string(), "lib.Words.Word".to_string()]);
}

#[test]
fn the_files_after_a_file_in_error_are_still_lowered() {
    let broken = source(vec![
        block("main", 1, vec![]),
        block("main", 10, vec![]),
    ]);
    let lib = source(vec![block("words", 1, vec![define_cmd("Word", 8, string_body("w", 15))])]);
    let (result, cons) = run(vec![FCPEGFile::new(String::new(), broken), FCPEGFile::new("lib".to_string(), lib)]);
    assert_eq!(result, Err(()));
    assert_eq!(
        cons.logs,
        vec![
            BlockParseError::NamingRuleViolation { pos: at(1), id: "main".to_string() },
            BlockParseError::NamingRuleViolation { pos: at(10), id: "main".to_string() },
            BlockParseError::DuplicatedBlockName { pos: at(10), block_name: "main".to_string() },
            BlockParseError::NamingRuleViolation { pos: at(1), id: "words".to_string() },
        ]
    );
    assert!(cons.has_error());
}

#[test]
fn warnings_alone_do_not_stop_the_run() {
    let tree = source(vec![block(
        "Main",
        1,
        vec![start_cmd(&["Main", "x"], 13), define_cmd("x", 22, string_body("a", 26))],
    )]);
    let (result, cons) = run(vec![FCPEGFile::new(String::new(), tree)]);
    let catalog = result.expect("the catalog is missing");
    assert_eq!(catalog.start_rule_id, ".Main.x");
    assert_eq!(cons.logs, vec![BlockParseError::NamingRuleViolation { pos: at(22), id: "x".to_string() }]);
    assert!(!cons.has_error());
}

#[test]
fn assembling_reports_the_start_rule_before_the_references() {
    let mut appeared: AppearedIds = StringMap::new();
    appeared.insert_new(".Main.A".to_string(), at(4));
    let mut cons = Console::new();
    let result = BlockParser::assemble(&mut cons, &vec![], &vec![], Some(".Main.X".to_string()), &appeared);
    assert_eq!(result, Err(()));
    assert_eq!(
        cons.logs,
        vec![
            BlockParseError::UnknownRuleID { pos: empty_pos(), rule_id: ".Main.X".to_string() },
            BlockParseError::UnknownRuleID { pos: at(4), rule_id: ".Main.A".to_string() },
        ]
    );
    let mut cons = Console::new();
    let result = BlockParser::assemble(&mut cons, &vec![], &vec![], None, &appeared);
    assert_eq!(result, Err(()));
    assert_eq!(cons.logs, vec![BlockParseError::NoStartCommandInMainBlock]);
    let aliases = vec!["a".to_string(), "b".to_string(), "b".to_string(), "a".to_string()];
    assert_eq!(BlockParser::find_duplicated_alias(&aliases), Some("b".to_string()));
    assert_eq!(BlockParser::find_duplicated_alias(&vec!["a".to_string(), "".to_string()]), None);
    let mut cons = Console::new();
    let result = BlockParser::assemble(&mut cons, &aliases, &vec![], Some(".Main.X".to_string()), &appeared);
    assert_eq!(result, Err(()));
    assert_eq!(cons.logs, vec![BlockParseError::DuplicatedFileAliasName { file_alias_name: "b".to_string() }]);
}

#[test]
fn the_later_of_two_definitions_under_one_identifier_stands_in_the_catalog() {
    let rule = |text: &str| Rule::new(empty_pos(), ".A.X".to_string(), "X".to_string(), vec![], vec![], string_sequence(text));
    let define = |text: &str| BlockCommand::Define { pos: empty_pos(), rule: rule(text) };
    let mut first: BlockMap = StringMap::new();
    first.insert("A".to_string(), Block::new("A".to_string(), vec![define("one"), define("two")]));
    let mut second: BlockMap = StringMap::new();
    second.insert("A".to_string(), Block::new("A".to_string(), vec![define("three")]));
    let catalog = RuleMap::new(&vec![first, second], ".A.X".to_string());
    assert_eq!(catalog.rule_map.keys, vec![".A.X".to_string()]);
    assert_eq!(catalog.get_rule(&".A.X".to_string()), Some(&rule("three")));
    assert_eq!(catalog.get_rule(&".A.Y".to_string()), None);
}

// Elements.

fn lowered_expression(result: Result<RuleElement, BlockParseError>) -> RuleExpression {
    match result.expect("the element is missing") {
        RuleElement::Expression(expr) => expr,
        RuleElement::Group(_) => panic!("an expression was expected"),
    }
}

fn lowered_group(result: Result<RuleElement, BlockParseError>) -> RuleGroup {
    match result.expect("the element is missing") {
        RuleElement::Group(group) => group,
        RuleElement::Expression(_) => panic!("a group was expected"),
    }
}

fn count_of(parts: SyntaxNodeElement) -> Result<RuleElementLoopCount, BlockParseError> {
    let (result, _, _) = lower_element(&scope("", "A"), vec![plain_str_expr("a", 0), parts]);
    result.map(|elem| match elem {
        RuleElement::Expression(expr) => expr.loop_count,
        RuleElement::Group(group) => group.loop_count,
    })
}

#[test]
fn loop_ranges_give_their_bounds() {
    let invalid = Err(BlockParseError::InvalidLoopCount { pos: empty_pos() });
    assert_eq!(count_of(loop_range(Some("2"), Some("5"))), Ok(RuleElementLoopCount::new(2, Infinitable::Normal(5))));
    assert_eq!(count_of(loop_range(Some("3"), Some("3"))), Ok(RuleElementLoopCount::new(3, Infinitable::Normal(3))));
    assert_eq!(count_of(loop_range(Some("0"), Some("2"))), Ok(RuleElementLoopCount::new(0, Infinitable::Normal(2))));
    assert_eq!(count_of(loop_range(None, Some("3"))), Ok(RuleElementLoopCount::new(0, Infinitable::Normal(3))));
    assert_eq!(count_of(loop_range(Some("4"), None)), Ok(RuleElementLoopCount::new(4, Infinitable::Infinite)));
    assert_eq!(count_of(loop_range(Some("0"), None)), Ok(RuleElementLoopCount::new(0, Infinitable::Infinite)));
    assert_eq!(count_of(loop_range(None, None)), Ok(RuleElementLoopCount::new(0, Infinitable::Infinite)));
    assert_eq!(count_of(loop_exact("7")), Ok(RuleElementLoopCount::new(7, Infinitable::Normal(7))));
    assert_eq!(count_of(loop_range(Some("0"), Some("0"))), invalid);
    assert_eq!(count_of(loop_range(None, Some("0"))), invalid);
    assert_eq!(count_of(loop_exact("0")), invalid);
    assert_eq!(count_of(loop_range(Some("5"), Some("2"))), invalid);
    assert_eq!(count_of(loop_range(Some("x"), Some("2"))), invalid);
    assert_eq!(count_of(loop_range(Some("1"), Some("99999999999999999999999"))), invalid);
    assert_eq!(count_of(node(".Rule.Loop", vec![node(".Rule.LoopRange", vec![])])), invalid);
    assert_eq!(count_of(node(".Rule.Loop", vec![node(".Rule.LoopRange", vec![leaf("", 0)])])), invalid);
}

#[test]
fn loop_symbols_give_their_bounds() {
    assert_eq!(count_of(loop_symbol("?")), Ok(RuleElementLoopCount::new(0, Infinitable::Normal(1))));
    assert_eq!(count_of(loop_symbol("*")), Ok(RuleElementLoopCount::new(0, Infinitable::Infinite)));
    assert_eq!(count_of(loop_symbol("+")), Ok(RuleElementLoopCount::new(1, Infinitable::Infinite)));
    assert_eq!(
        count_of(loop_symbol("~")),
        Err(BlockParseError::InternalError { msg: "unknown loop kind".to_string() })
    );
    let (result, _, _) = lower_element(&scope("", "A"), vec![plain_str_expr("a", 0)]);
    assert_eq!(lowered_expression(result).loop_count, RuleElementLoopCount::new(1, Infinitable::Normal(1)));
}

#[test]
fn a_range_node_reads_as_a_count() {
    let range = as_node(node(".Rule.LoopRange", vec![bound(Some("2")), bound(Some("5"))]));
    assert_eq!(to_loop_range(&range), Some(RuleElementLoopCount::new(2, Infinitable::Normal(5))));
    let range = as_node(node(".Rule.LoopRange", vec![hidden_leaf("{", 0), bound(Some("+2")), hidden_leaf(",", 0), bound(None)]));
    assert_eq!(to_loop_range(&range), Some(RuleElementLoopCount::new(2, Infinitable::Infinite)));
}

#[test]
fn lookaheads_are_read_from_their_symbol() {
    let here = scope("", "A");
    let (result, _, _) = lower_element(&here, vec![lookahead("&"), plain_str_expr("a", 0)]);
    assert_eq!(lowered_expression(result).lookahead_kind, RuleElementLookaheadKind::Positive);
    let (result, _, _) = lower_element(&here, vec![lookahead("!"), plain_str_expr("a", 0)]);
    assert_eq!(lowered_expression(result).lookahead_kind, RuleElementLookaheadKind::Negative);
    let (result, _, _) = lower_element(&here, vec![plain_str_expr("a", 0)]);
    assert_eq!(lowered_expression(result).lookahead_kind, RuleElementLookaheadKind::NoLookahead);
    let (result, _, _) = lower_element(&here, vec![lookahead("?"), plain_str_expr("a", 0)]);
    assert_eq!(result, Err(BlockParseError::InternalError { msg: "unknown lookahead kind".to_string() }));
}

#[test]
fn reflection_styles_are_read_from_their_mark() {
    let here = scope("", "A");
    let (result, _, _) = lower_element(&here, vec![plain_str_expr("a", 0)]);
    assert_eq!(lowered_expression(result).ast_reflection_style, ASTReflectionStyle::Reflection(String::new()));
    let (result, _, _) = lower_element(&here, vec![plain_str_expr("a", 0), reflection_none()]);
    assert_eq!(lowered_expression(result).ast_reflection_style, ASTReflectionStyle::NoReflection);
    let (result, _, _) = lower_element(&here, vec![plain_str_expr("a", 0), reflection_expansion()]);
    assert_eq!(lowered_expression(result).ast_reflection_style, ASTReflectionStyle::Expansion);
    let (result, _, _) = lower_element(&here, vec![plain_str_expr("a", 0), reflection_name("Letter")]);
    assert_eq!(lowered_expression(result).ast_reflection_style, ASTReflectionStyle::Reflection("Letter".to_string()));
}

#[test]
fn decorations_are_read_together() {
    let elem = as_node(seq_elem(vec![
        lookahead("!"),
        plain_str_expr("a", 0),
        loop_symbol("+"),
        random_order(Some((Some("1"), Some("2")))),
        reflection_name("N"),
    ]));
    let decorations = to_decorations(&elem).expect("the decorations are missing");
    assert_eq!(decorations.lookahead_kind, RuleElementLookaheadKind::Negative);
    assert_eq!(decorations.loop_count, RuleElementLoopCount::new(1, Infinitable::Infinite));
    assert_eq!(decorations.occurrence, Some(RuleElementLoopCount::new(1, Infinitable::Normal(2))));
    assert_eq!(decorations.ast_reflection_style, ASTReflectionStyle::Reflection("N".to_string()));
}

#[test]
fn strings_decode_their_escape_sequences() {
    let pieces = vec![
        leaf("a", 1),
        escape("n", 3),
        escape("t", 5),
        escape("z", 7),
        escape("\\", 9),
        escape("\"", 11),
        leaf("b", 12),
        hidden_leaf("\"", 13),
    ];
    let string = as_node(node(".Rule.Str", pieces));
    assert_eq!(to_string_value(&string), Ok("a\n\t\0\\\"b".to_string()));
    let empty = as_node(node(".Rule.Str", vec![]));
    assert_eq!(to_string_value(&empty), Ok(String::new()));
}

#[test]
fn the_first_unknown_escape_is_the_error() {
    let string = as_node(node(".Rule.Str", vec![leaf("a", 1), escape("q", 3), escape("r", 5)]));
    assert_eq!(to_string_value(&string), Err(BlockParseError::UnknownEscapeSequenceCharacter { pos: at(3) }));
    let string = as_node(node(".Rule.Str", vec![escape("nn", 3)]));
    assert_eq!(to_string_value(&string), Err(BlockParseError::UnknownEscapeSequenceCharacter { pos: at(3) }));
}

#[test]
fn expressions_of_every_kind_are_lowered() {
    let here = scope("f", "B");
    let (result, appeared, _) = lower_element(&here, vec![node(".Rule.Expr", vec![node(".Rule.CharClass", vec![leaf("a-z", 4)])])]);
    assert_eq!(lowered_expression(result), plain_expression(at(4), RuleExpressionKind::CharClass, "[a-z]"));
    assert_eq!(appeared.keys, Vec::<String>::new());
    let (result, _, _) = lower_element(&here, vec![node(".Rule.Expr", vec![node(".Rule.Wildcard", vec![leaf(".", 6)])])]);
    assert_eq!(lowered_expression(result), plain_expression(at(6), RuleExpressionKind::Wildcard, "."));
    let (result, appeared, _) = lower_element(&here, vec![node(".Rule.Expr", vec![node(".Rule.ArgID", vec![leaf("item", 8)])])]);
    assert_eq!(lowered_expression(result), plain_expression(at(8), RuleExpressionKind::ArgID, "item"));
    assert_eq!(appeared.keys, Vec::<String>::new());
    let (result, _, _) = lower_element(&here, vec![plain_str_expr("text", 10)]);
    assert_eq!(lowered_expression(result), plain_expression(empty_pos(), RuleExpressionKind::String, "text"));
    let (result, appeared, _) = lower_element(&here, vec![id_expr(&["Word"], 12)]);
    assert_eq!(lowered_expression(result), plain_expression(at(12), RuleExpressionKind::ID, "f.B.Word"));
    assert_eq!(appeared.keys, vec!["f.B.Word".to_string()]);
    assert_eq!(appeared.values, vec![at(12)]);
    let (result, _, _) = lower_element(&here, vec![node(".Rule.Expr", vec![node(".Rule.Other", vec![])])]);
    assert_eq!(result, Err(BlockParseError::InternalError { msg: "unknown expression name '.Rule.Other'".to_string() }));
    let (result, _, _) = lower_element(&here, vec![lookahead("&")]);
    assert_eq!(result, Err(BlockParseError::InternalError { msg: "invalid syntax tree structure".to_string() }));
}

fn call(kind: &str, parts: &[&str], index: usize, args: Vec<Vec<SyntaxNodeElement>>) -> SyntaxNodeElement {
    let mut children = vec![chain_id(parts, index)];
    for arg in args {
        children.push(node(".Rule.InstantPureChoice", arg));
    }
    node(".Rule.Expr", vec![node(kind, children)])
}

#[test]
fn calls_lower_their_arguments_and_resolve_their_rule() {
    let here = scope("", "B");
    let args = vec![string_body("a", 8), reference_body(&["Word"], 13)];
    let (result, appeared, _) = lower_element(&here, vec![call(".Rule.Generics", &["Wrap"], 3, args)]);
    let word = plain_group(
        RuleGroupKind::Sequence,
        vec![RuleElement::Expression(plain_expression(at(13), RuleExpressionKind::ID, ".B.Word"))],
    );
    assert_eq!(
        lowered_expression(result),
        plain_expression(at(3), RuleExpressionKind::Generics(vec![string_sequence("a"), word]), ".B.Wrap")
    );
    // The arguments are lowered before the rule is resolved.
    assert_eq!(appeared.keys, vec![".B.Word".to_string(), ".B.Wrap".to_string()]);
    let (result, appeared, _) = lower_element(&here, vec![call(".Rule.Func", &["Twice"], 3, vec![string_body("a", 9)])]);
    assert_eq!(
        lowered_expression(result),
        plain_expression(at(3), RuleExpressionKind::Func(vec![string_sequence("a")]), ".B.Twice")
    );
    assert_eq!(appeared.keys, vec![".B.Twice".to_string()]);
}

#[test]
fn the_built_in_function_is_called_by_its_own_name() {
    let here = scope("", "B");
    let (result, appeared, _) = lower_element(&here, vec![call(".Rule.Func", &["JOIN"], 3, vec![string_body("a", 8)])]);
    assert_eq!(
        lowered_expression(result),
        plain_expression(at(3), RuleExpressionKind::Func(vec![string_sequence("a")]), "JOIN")
    );
    assert_eq!(appeared.keys, Vec::<String>::new());
    // With generic arguments the same name is the name of a rule.
    let (result, appeared, _) = lower_element(&here, vec![call(".Rule.Generics", &["JOIN"], 3, vec![string_body("a", 8)])]);
    assert_eq!(lowered_expression(result).value, ".B.JOIN");
    assert_eq!(appeared.keys, vec![".B.JOIN".to_string()]);
    // A longer chain that ends in the name is the name of a rule too.
    let (result, _, _) = lower_element(&here, vec![call(".Rule.Func", &["f", "Lib", "JOIN"], 3, vec![string_body("a", 8)])]);
    assert_eq!(lowered_expression(result).value, "f.Lib.JOIN");
}

#[test]
fn the_first_reference_to_a_rule_gives_its_place() {
    let body = vec![seq(vec![
        seq_elem(vec![id_expr(&["Word"], 10)]),
        seq_elem(vec![id_expr(&["Other"], 15)]),
        seq_elem(vec![id_expr(&["Word"], 21)]),
    ])];
    let (result, appeared, _) = lower_choice(&scope("", "B"), body);
    assert!(result.is_ok());
    assert_eq!(appeared.keys, vec![".B.Word".to_string(), ".B.Other".to_string()]);
    assert_eq!(appeared.values, vec![at(10), at(15)]);
}

#[test]
fn alternatives_make_an_ordered_choice() {
    let body = vec![
        seq(vec![seq_elem(vec![plain_str_expr("a", 0)])]),
        leaf(":", 4),
        seq(vec![seq_elem(vec![plain_str_expr("b", 6)]), seq_elem(vec![plain_str_expr("c", 10)])]),
    ];
    let (result, _, _) = lower_choice(&scope("", "A"), body);
    let second = plain_group(
        RuleGroupKind::Sequence,
        vec![
            RuleElement::Expression(plain_expression(empty_pos(), RuleExpressionKind::String, "b")),
            RuleElement::Expression(plain_expression(empty_pos(), RuleExpressionKind::String, "c")),
        ],
    );
    assert_eq!(
        result,
        Ok(plain_group(
            RuleGroupKind::Choice,
            vec![RuleElement::Group(string_sequence("a")), RuleElement::Group(second)],
        ))
    );
}

#[test]
fn commas_make_a_choice_in_random_order() {
    let body = vec![
        seq(vec![seq_elem(vec![plain_str_expr("a", 0)])]),
        leaf(",", 4),
        seq(vec![seq_elem(vec![plain_str_expr("b", 6)])]),
    ];
    let (result, _, _) = lower_choice(&scope("", "A"), body);
    assert_eq!(
        result,
        Ok(plain_group(
            RuleGroupKind::RandomOrder(once()),
            vec![RuleElement::Group(string_sequence("a")), RuleElement::Group(string_sequence("b"))],
        ))
    );
}

#[test]
fn a_single_alternative_is_a_sequence() {
    let (result, _, _) = lower_choice(&scope("", "A"), string_body("a", 0));
    let group = result.expect("the group is missing");
    assert_eq!(group, plain_group(RuleGroupKind::Sequence, vec![RuleElement::Group(string_sequence("a"))]));
    assert_eq!(collapse(group), string_sequence("a"));
}

#[test]
fn collapsing_leaves_other_groups_alone() {
    let choice = plain_group(RuleGroupKind::Choice, vec![RuleElement::Group(string_sequence("a"))]);
    assert_eq!(collapse(plain_group(RuleGroupKind::Choice, vec![RuleElement::Group(string_sequence("a"))])), choice);
    assert_eq!(collapse(string_sequence("a")), string_sequence("a"));
    let two = || plain_group(
        RuleGroupKind::Sequence,
        vec![RuleElement::Group(string_sequence("a")), RuleElement::Group(string_sequence("b"))],
    );
    assert_eq!(collapse(two()), two());
    assert_eq!(collapse(plain_group(RuleGroupKind::Sequence, vec![])), plain_group(RuleGroupKind::Sequence, vec![]));
}

#[test]
fn a_choice_without_alternatives_has_no_content() {
    let (result, _, _) = lower_choice(&scope("", "A"), vec![]);
    assert_eq!(result, Err(BlockParseError::NoChoiceOrExpressionContent { pos: empty_pos() }));
    let (result, _, _) = lower_choice(&scope("", "A"), vec![leaf(":", 3)]);
    assert_eq!(result, Err(BlockParseError::NoChoiceOrExpressionContent { pos: empty_pos() }));
}

#[test]
fn separators_are_found_at_their_first_place() {
    let choice = as_node(pure_choice(vec![
        seq(vec![]),
        hidden_leaf(":", 2),
        leaf(":", 5),
        seq(vec![]),
        leaf(":", 9),
    ]));
    assert_eq!(find_separator(&choice, ":"), Some(at(5)));
    assert_eq!(find_separator(&choice, ","), None);
}

#[test]
fn separators_of_different_levels_do_not_mix() {
    // ("a" : "b") , "c"
    let inner = seq_elem(vec![choice_body(vec![
        seq(vec![seq_elem(vec![plain_str_expr("a", 1)])]),
        leaf(":", 5),
        seq(vec![seq_elem(vec![plain_str_expr("b", 7)])]),
    ])]);
    let body = vec![seq(vec![inner]), leaf(",", 12), seq(vec![seq_elem(vec![plain_str_expr("c", 14)])])];
    let (result, _, _) = lower_choice(&scope("", "A"), body);
    let choice = element_group(
        RuleGroupKind::Choice,
        vec![RuleElement::Group(string_sequence("a")), RuleElement::Group(string_sequence("b"))],
    );
    let first = plain_group(RuleGroupKind::Sequence, vec![RuleElement::Group(choice)]);
    assert_eq!(
        result,
        Ok(plain_group(
            RuleGroupKind::RandomOrder(once()),
            vec![RuleElement::Group(first), RuleElement::Group(string_sequence("c"))],
        ))
    );
}

#[test]
fn mixed_separators_in_parentheses_are_an_error_too() {
    let inner = seq_elem(vec![choice_body(vec![
        seq(vec![seq_elem(vec![plain_str_expr("a", 1)])]),
        leaf(",", 5),
        seq(vec![seq_elem(vec![plain_str_expr("b", 7)])]),
        leaf(":", 11),
        seq(vec![seq_elem(vec![plain_str_expr("c", 13)])]),
    ])]);
    let (result, _, cons) = lower_choice(&scope("", "A"), vec![seq(vec![inner])]);
    assert_eq!(
        result,
        Err(BlockParseError::UnexpectedToken {
            pos: at(5),
            unexpected_token: ",".to_string(),
            expected_str: "':'".to_string(),
        })
    );
    assert_eq!(cons.logs, vec![]);
}

#[test]
fn a_group_in_parentheses_carries_the_decorations() {
    // ("a" "b")*#
    let inner = choice_body(vec![seq(vec![
        seq_elem(vec![plain_str_expr("a", 1)]),
        seq_elem(vec![plain_str_expr("b", 5)]),
    ])]);
    let (result, _, _) = lower_element(&scope("", "A"), vec![inner, loop_symbol("*"), reflection_none()]);
    let group = lowered_group(result);
    assert_eq!(group.kind, RuleGroupKind::Sequence);
    assert_eq!(group.loop_count, RuleElementLoopCount::new(0, Infinitable::Infinite));
    assert_eq!(group.ast_reflection_style, ASTReflectionStyle::NoReflection);
    assert_eq!(
        group.sub_elems,
        vec![
            RuleElement::Expression(plain_expression(empty_pos(), RuleExpressionKind::String, "a")),
            RuleElement::Expression(plain_expression(empty_pos(), RuleExpressionKind::String, "b")),
        ]
    );
}

#[test]
fn a_random_order_mark_gives_the_number_of_occurrences() {
    // ("a", "b")^[1-2]
    let alternatives = || {
        choice_body(vec![
            seq(vec![seq_elem(vec![plain_str_expr("a", 1)])]),
            leaf(",", 4),
            seq(vec![seq_elem(vec![plain_str_expr("b", 6)])]),
        ])
    };
    let here = scope("", "A");
    let (result, _, _) = lower_element(&here, vec![alternatives(), random_order(Some((Some("1"), Some("2"))))]);
    let group = lowered_group(result);
    assert_eq!(group.kind, RuleGroupKind::RandomOrder(RuleElementLoopCount::new(1, Infinitable::Normal(2))));
    assert_eq!(
        group.sub_elems,
        vec![RuleElement::Group(string_sequence("a")), RuleElement::Group(string_sequence("b"))]
    );
    let (result, _, _) = lower_element(&here, vec![alternatives(), random_order(None)]);
    assert_eq!(lowered_group(result).kind, RuleGroupKind::RandomOrder(once()));
    let (result, _, _) = lower_element(&here, vec![alternatives(), random_order(Some((None, Some("3"))))]);
    assert_eq!(lowered_group(result).kind, RuleGroupKind::RandomOrder(RuleElementLoopCount::new(0, Infinitable::Normal(3))));
    let (result, _, _) = lower_element(&here, vec![alternatives(), random_order(Some((Some("2"), None)))]);
    assert_eq!(lowered_group(result).kind, RuleGroupKind::RandomOrder(RuleElementLoopCount::new(2, Infinitable::Infinite)));
    let (result, _, _) = lower_element(&here, vec![alternatives(), random_order(Some((Some("2"), Some("1"))))]);
    assert_eq!(result, Err(BlockParseError::InvalidLoopCount { pos: empty_pos() }));
    // Without the mark, commas alone give one occurrence each.
    let (result, _, _) = lower_element(&here, vec![alternatives()]);
    assert_eq!(lowered_group(result).kind, RuleGroupKind::RandomOrder(once()));
}

#[test]
fn a_random_order_mark_keeps_a_single_alternative_as_it_is() {
    let inner = choice_body(vec![seq(vec![seq_elem(vec![plain_str_expr("a", 1)])])]);
    let (result, _, _) = lower_element(&scope("", "A"), vec![inner, random_order(None)]);
    let group = lowered_group(result);
    assert_eq!(group.kind, RuleGroupKind::RandomOrder(once()));
    assert_eq!(group.sub_elems, vec![RuleElement::Group(string_sequence("a"))]);
}

#[test]
fn a_random_order_mark_does_not_go_with_an_ordered_choice() {
    let inner = choice_body(vec![
        seq(vec![seq_elem(vec![plain_str_expr("a", 1)])]),
        leaf(":", 4),
        seq(vec![seq_elem(vec![plain_str_expr("b", 6)])]),
    ]);
    let (result, _, _) = lower_element(&scope("", "A"), vec![inner, random_order(None)]);
    assert_eq!(
        result,
        Err(BlockParseError::UnexpectedToken {
            pos: empty_pos(),
            unexpected_token: ":".to_string(),
            expected_str: "','".to_string(),
        })
    );
}

#[test]
fn a_random_order_mark_does_not_go_with_an_expression() {
    let (result, _, _) = lower_element(&scope("", "A"), vec![plain_str_expr("a", 1), random_order(None)]);
    assert_eq!(
        result,
        Err(BlockParseError::UnexpectedToken {
            pos: empty_pos(),
            unexpected_token: "^".to_string(),
            expected_str: "nothing".to_string(),
        })
    );
}

#[test]
fn the_warnings_before_an_error_are_kept() {
    let body = vec![seq(vec![
        seq_elem(vec![id_expr(&["", "Other", "_Hidden"], 10)]),
        seq_elem(vec![id_expr(&["O", "R"], 30)]),
        seq_elem(vec![id_expr(&["Never"], 40)]),
    ])];
    let (result, appeared, cons) = lower_choice(&scope("", "A"), body);
    assert_eq!(result, Err(BlockParseError::BlockAliasNotFound { pos: at(30), block_alias_name: "O".to_string() }));
    assert_eq!(
        cons.logs,
        vec![BlockParseError::AttemptToAccessPrivateItem { pos: at(10), item_id: ".Other._Hidden".to_string() }]
    );
    assert_eq!(appeared.keys, vec![".Other._Hidden".to_string()]);
}

#[test]
fn chains_give_their_parts() {
    let chain = as_node(chain_id(&["a", "b", "c"], 0));
    assert_eq!(to_string_vec(&chain), Some(vec!["a".to_string(), "b".to_string(), "c".to_string()]));
    let chain = as_node(node(".Misc.ChainID", vec![single_id("a", 0), hidden_leaf(".", 1), single_id("b", 2)]));
    assert_eq!(to_string_vec(&chain), Some(vec!["a".to_string(), "b".to_string()]));
    let chain = as_node(node(".Misc.ChainID", vec![single_id("a", 0), leaf(".", 1)]));
    assert_eq!(to_string_vec(&chain), None);
}

#[test]
fn a_second_block_named_main_is_a_duplicate() {
    // [Main]{+use Other as O,+start Main.X,}[Main]{X<-O.R,}
    let tree = source(vec![
        block("Main", 1, vec![use_cmd(&["Other"], Some("O"), 11), start_cmd(&["Main", "X"], 30)]),
        block("Main", 40, vec![define_cmd("X", 46, reference_body(&["O", "R"], 49))]),
    ]);
    let (result, cons) = run(vec![FCPEGFile::new(String::new(), tree)]);
    assert_eq!(result, Err(()));
    assert_eq!(
        cons.logs,
        vec![BlockParseError::DuplicatedBlockName { pos: at(40), block_name: "Main".to_string() }]
    );
}
