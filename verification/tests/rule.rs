use fcpeg::position::CharacterPosition;
use fcpeg::rule::{
    ASTReflectionStyle, Infinitable, Rule, RuleElement, RuleElementLookaheadKind, RuleElementLoopCount,
    RuleExpression, RuleExpressionKind, RuleGroup, RuleGroupKind,
};

#[test]
fn loop_counts_come_from_their_symbols() {
    assert_eq!(RuleElementLoopCount::from_symbol(&"?".to_string()), RuleElementLoopCount::new(0, Infinitable::Normal(1)));
    assert_eq!(RuleElementLoopCount::from_symbol(&"*".to_string()), RuleElementLoopCount::new(0, Infinitable::Infinite));
    assert_eq!(RuleElementLoopCount::from_symbol(&"+".to_string()), RuleElementLoopCount::new(1, Infinitable::Infinite));
    assert_eq!(RuleElementLoopCount::from_symbol(&"".to_string()), RuleElementLoopCount::get_single_loop());
    assert_eq!(RuleElementLoopCount::get_single_loop(), RuleElementLoopCount::new(1, Infinitable::Normal(1)));
    assert!(RuleElementLoopCount::get_single_loop().is_single_loop());
    assert!(!RuleElementLoopCount::new(1, Infinitable::Infinite).is_single_loop());
    assert!(!RuleElementLoopCount::new(0, Infinitable::Normal(1)).is_single_loop());
}

#[test]
fn lookaheads_come_from_their_symbols() {
    assert_eq!(RuleElementLookaheadKind::new(&"&".to_string()), RuleElementLookaheadKind::Positive);
    assert_eq!(RuleElementLookaheadKind::new(&"!".to_string()), RuleElementLookaheadKind::Negative);
    assert_eq!(RuleElementLookaheadKind::new(&"".to_string()), RuleElementLookaheadKind::NoLookahead);
}

#[test]
fn reflection_styles_come_from_the_mark_and_its_reading() {
    let name = || "N".to_string();
    assert_eq!(ASTReflectionStyle::from_config(false, false, name()), ASTReflectionStyle::Reflection(name()));
    assert_eq!(ASTReflectionStyle::from_config(false, true, name()), ASTReflectionStyle::NoReflection);
    assert_eq!(ASTReflectionStyle::from_config(true, false, name()), ASTReflectionStyle::NoReflection);
    assert_eq!(ASTReflectionStyle::from_config(true, true, name()), ASTReflectionStyle::Reflection(name()));
    assert!(ASTReflectionStyle::Reflection(String::new()).is_reflectable());
    assert!(!ASTReflectionStyle::NoReflection.is_reflectable());
    assert!(!ASTReflectionStyle::Expansion.is_reflectable());
}

#[test]
fn new_elements_carry_no_qualifiers() {
    let group = RuleGroup::new(RuleGroupKind::Choice);
    assert_eq!(group.kind, RuleGroupKind::Choice);
    assert_eq!(group.sub_elems, vec![]);
    assert_eq!(group.ast_reflection_style, ASTReflectionStyle::NoReflection);
    assert_eq!(group.lookahead_kind, RuleElementLookaheadKind::NoLookahead);
    assert_eq!(group.loop_count, RuleElementLoopCount::get_single_loop());
    let expr = RuleExpression::new(CharacterPosition::new(None, 3), RuleExpressionKind::Wildcard, ".".to_string());
    assert_eq!(expr.pos, CharacterPosition::new(None, 3));
    assert_eq!(expr.value, ".");
    assert_eq!(expr.ast_reflection_style, ASTReflectionStyle::NoReflection);
    assert_eq!(expr.lookahead_kind, RuleElementLookaheadKind::NoLookahead);
    assert_eq!(expr.loop_count, RuleElementLoopCount::get_single_loop());
    let filled = RuleGroup::with_children(RuleGroupKind::Sequence, vec![RuleElement::Expression(expr.clone())]);
    assert_eq!(filled.sub_elems, vec![RuleElement::Expression(expr)]);
}

#[test]
fn copies_of_rules_are_equal_to_them() {
    let arg = RuleGroup::with_children(
        RuleGroupKind::RandomOrder(RuleElementLoopCount::new(1, Infinitable::Normal(2))),
        vec![RuleElement::Expression(RuleExpression::new(
            CharacterPosition::get_empty(),
            RuleExpressionKind::String,
            "a".to_string(),
        ))],
    );
    let call = RuleExpression::new(
        CharacterPosition::new(Some("f".to_string()), 4),
        RuleExpressionKind::Func(vec![arg.clone(), RuleGroup::new(RuleGroupKind::Choice)]),
        "JOIN".to_string(),
    );
    let body = RuleGroup::with_children(
        RuleGroupKind::Sequence,
        vec![RuleElement::Expression(call), RuleElement::Group(arg)],
    );
    let rule = Rule::new(
        CharacterPosition::new(Some("f".to_string()), 1),
        ".A.X".to_string(),
        "X".to_string(),
        vec!["T".to_string()],
        vec!["a".to_string(), "b".to_string()],
        body,
    );
    assert_eq!(rule.clone(), rule);
    assert_eq!(rule.group.clone(), rule.group);
}
