use fcpeg::block::{Block, BlockCommand};
use fcpeg::bootstrap::{block, char_class, id, rule, sequence, string, wildcard, FCPEGBlock};
use fcpeg::position::CharacterPosition;
use fcpeg::rule::{
    ASTReflectionStyle, Infinitable, Rule, RuleElement, RuleElementLookaheadKind, RuleElementLoopCount,
    RuleExpression, RuleExpressionKind, RuleGroup, RuleGroupKind,
};

fn once() -> RuleElementLoopCount {
    RuleElementLoopCount::new(1, Infinitable::Normal(1))
}

fn expression(kind: RuleExpressionKind, value: &str, name: &str) -> RuleExpression {
    RuleExpression {
        pos: CharacterPosition::get_empty(),
        kind,
        value: value.to_string(),
        ast_reflection_style: ASTReflectionStyle::Reflection(name.to_string()),
        lookahead_kind: RuleElementLookaheadKind::NoLookahead,
        loop_count: once(),
    }
}

fn group(kind: RuleGroupKind, style: ASTReflectionStyle, sub_elems: Vec<RuleElement>) -> RuleGroup {
    RuleGroup { kind, sub_elems, ast_reflection_style: style, lookahead_kind: RuleElementLookaheadKind::NoLookahead, loop_count: once() }
}

fn defined(block: &Block) -> Vec<&Rule> {
    block
        .cmds
        .iter()
        .map(|cmd| match cmd {
            BlockCommand::Define { rule, .. } => rule,
            _ => panic!("a definition was expected"),
        })
        .collect()
}

fn references(elem: &RuleElement, found: &mut Vec<String>) {
    match elem {
        RuleElement::Group(group) => {
            for child in &group.sub_elems {
                references(child, found);
            }
        }
        RuleElement::Expression(expr) => {
            if expr.kind == RuleExpressionKind::ID {
                found.push(expr.value.clone());
            }
        }
    }
}

#[test]
fn the_builders_make_plain_elements() {
    assert_eq!(id(".Misc.SingleID"), RuleElement::Expression(expression(RuleExpressionKind::ID, ".Misc.SingleID", ".Misc.SingleID")));
    assert_eq!(string("<-"), RuleElement::Expression(expression(RuleExpressionKind::String, "<-", "")));
    assert_eq!(char_class("[0-9]"), RuleElement::Expression(expression(RuleExpressionKind::CharClass, "[0-9]", "")));
    assert_eq!(wildcard(), RuleElement::Expression(expression(RuleExpressionKind::Wildcard, ".", "")));
    assert_eq!(sequence(), RuleElement::Group(group(RuleGroupKind::Sequence, ASTReflectionStyle::Reflection(String::new()), vec![])));
    assert_eq!(block(".Misc"), Block::new(".Misc".to_string(), vec![]));
}

#[test]
fn options_set_the_qualifiers() {
    let with = |option: &str| match string("a").opt(option) {
        RuleElement::Expression(expr) => expr,
        RuleElement::Group(_) => panic!("an expression was expected"),
    };
    assert_eq!(with("&").lookahead_kind, RuleElementLookaheadKind::Positive);
    assert_eq!(with("!").lookahead_kind, RuleElementLookaheadKind::Negative);
    assert_eq!(with("?").loop_count, RuleElementLoopCount::new(0, Infinitable::Normal(1)));
    assert_eq!(with("*").loop_count, RuleElementLoopCount::new(0, Infinitable::Infinite));
    assert_eq!(with("+").loop_count, RuleElementLoopCount::new(1, Infinitable::Infinite));
    assert_eq!(with("#").ast_reflection_style, ASTReflectionStyle::NoReflection);
    assert_eq!(with("##").ast_reflection_style, ASTReflectionStyle::Expansion);
    let shaped = match sequence().opt(":").opt("*").opt("##").opt("!").item(string("a")) {
        RuleElement::Group(group) => group,
        RuleElement::Expression(_) => panic!("a group was expected"),
    };
    assert_eq!(
        shaped,
        RuleGroup {
            kind: RuleGroupKind::Choice,
            sub_elems: vec![string("a")],
            ast_reflection_style: ASTReflectionStyle::Expansion,
            lookahead_kind: RuleElementLookaheadKind::Negative,
            loop_count: RuleElementLoopCount::new(0, Infinitable::Infinite),
        }
    );
}

#[test]
fn a_rule_collects_its_alternatives_in_an_expanding_choice() {
    let made = rule(".A.X").alt(sequence().item(string("a"))).alt(sequence().item(string("b")));
    let expected = Rule::new(
        CharacterPosition::get_empty(),
        ".A.X".to_string(),
        String::new(),
        vec![],
        vec![],
        group(
            RuleGroupKind::Choice,
            ASTReflectionStyle::Expansion,
            vec![sequence().item(string("a")), sequence().item(string("b"))],
        ),
    );
    assert_eq!(made, BlockCommand::Define { pos: CharacterPosition::get_empty(), rule: expected });
    assert_eq!(block("B").cmd(rule(".A.X")).cmds, vec![rule(".A.X")]);
}

#[test]
fn the_catalog_has_its_six_blocks() {
    let block_map = FCPEGBlock::get_block_map();
    let names: Vec<&str> = block_map.keys.iter().map(|key| key.as_str()).collect();
    assert_eq!(names, vec!["Main", "Syntax", "Symbol", "Misc", "Block", "Rule"]);
    let block_names: Vec<&str> = block_map.values.iter().map(|block| block.name.as_str()).collect();
    assert_eq!(block_names, vec!["Main", ".Syntax", ".Symbol", ".Misc", ".Block", ".Rule"]);
    let counts: Vec<usize> = block_map.values.iter().map(|block| block.cmds.len()).collect();
    assert_eq!(counts, vec![1, 1, 3, 2, 9, 22]);
}

#[test]
fn the_main_block_starts_at_the_rule_of_the_whole_source() {
    let block_map = FCPEGBlock::get_block_map();
    let main = block_map.get(&"Main".to_string()).expect("the block is missing");
    assert_eq!(
        main.cmds,
        vec![BlockCommand::Start {
            pos: CharacterPosition::get_empty(),
            file_alias_name: String::new(),
            block_name: "Syntax".to_string(),
            rule_name: "FCPEG".to_string(),
        }]
    );
}

#[test]
fn the_productions_are_those_of_the_language() {
    let block_map = FCPEGBlock::get_block_map();
    let symbol = block_map.get(&"Symbol".to_string()).expect("the block is missing");
    let rules = defined(symbol);
    assert_eq!(rules[0].id, ".Symbol.Space");
    assert_eq!(rules[0].name, "");
    assert_eq!(
        rules[0].group,
        group(RuleGroupKind::Choice, ASTReflectionStyle::Expansion, vec![sequence().item(string(" "))])
    );
    assert_eq!(
        symbol.cmds[1],
        rule(".Symbol.LineEnd")
            .alt(sequence().item(id(".Symbol.Space").opt("*")).item(string("\n")).item(id(".Symbol.Space").opt("*")))
    );
    assert_eq!(symbol.cmds[2], rule(".Symbol.EOF").alt(sequence().item(string("\0").opt("#"))));
    let misc = block_map.get(&"Misc".to_string()).expect("the block is missing");
    assert_eq!(
        misc.cmds[1],
        rule(".Misc.ChainID").alt(
            sequence().item(id(".Misc.SingleID")).item(
                sequence().opt("*").opt("##").item(sequence().item(string(".").opt("#")).item(id(".Misc.SingleID")))
            )
        )
    );
    let rule_block = block_map.get(&"Rule".to_string()).expect("the block is missing");
    assert_eq!(rule_block.cmds[13], rule(".Rule.Num").alt(sequence().item(char_class("[0-9]+").opt("+"))));
    assert_eq!(
        rule_block.cmds[10],
        rule(".Rule.RandomOrder").alt(sequence().item(string("^").opt("#")).item(string("RandomOrderRange").opt("?")))
    );
}

#[test]
fn the_names_that_the_lowering_relies_on_are_rules_of_the_catalog() {
    let catalog = FCPEGBlock::get_rule_map();
    assert_eq!(catalog.start_rule_id, ".Syntax.FCPEG");
    assert_eq!(catalog.rule_map.len(), 37);
    let names = [
        ".Syntax.FCPEG", ".Block.Block", ".Block.Cmd", ".Block.CommentCmd", ".Block.DefineCmd", ".Block.StartCmd",
        ".Block.UseCmd", ".Rule.PureChoice", ".Rule.InstantPureChoice", ".Rule.Seq", ".Rule.SeqElem", ".Rule.Expr",
        ".Rule.Lookahead", ".Rule.Loop", ".Rule.LoopRange", ".Rule.RandomOrder", ".Rule.RandomOrderRange",
        ".Rule.ASTReflectionStyle", ".Rule.Choice", ".Rule.Generics", ".Rule.Func", ".Rule.ArgID", ".Rule.ID",
        ".Rule.Str", ".Rule.EscSeq", ".Rule.CharClass", ".Rule.Wildcard", ".Misc.SingleID", ".Misc.ChainID",
        ".Block.DefineCmdGenericsIDs", ".Block.DefineCmdFuncIDs", ".Block.UseCmdBlockAlias",
    ];
    for name in names {
        assert!(catalog.contains_key(&name.to_string()), "{} is missing", name);
    }
}

#[test]
fn every_reference_in_the_catalog_names_a_rule_of_the_catalog() {
    let catalog = FCPEGBlock::get_rule_map();
    let mut found = Vec::new();
    for rule in &catalog.rule_map.values {
        for child in &rule.group.sub_elems {
            references(child, &mut found);
        }
    }
    assert_eq!(found.len(), 90);
    for id in found {
        assert!(catalog.contains_key(&id), "{} is missing", id);
    }
}
