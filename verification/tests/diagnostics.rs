use fcpeg::error::{BlockParseError, Console, ConsoleLogData, ConsoleLogKind};
use fcpeg::position::CharacterPosition;

fn at(index: usize) -> CharacterPosition {
    CharacterPosition::new(Some("src/main.fcpeg".to_string()), index)
}

fn shown(kind: ConsoleLogKind, title: &str, descs: &[&str]) -> ConsoleLogData {
    ConsoleLogData { kind, title: title.to_string(), descs: descs.iter().map(|desc| desc.to_string()).collect() }
}

#[test]
fn positions_read_as_path_and_offset() {
    assert_eq!(at(12).to_text(), "src/main.fcpeg:12");
    assert_eq!(at(0).to_text(), "src/main.fcpeg:0");
    assert_eq!(CharacterPosition::new(None, 340).to_text(), "340");
    assert_eq!(CharacterPosition::get_empty().to_text(), "0");
    assert_eq!(CharacterPosition::get_empty(), CharacterPosition::new(None, 0));
    assert_eq!(at(7).clone(), at(7));
}

#[test]
fn errors_with_a_place_show_it() {
    let place = "at:\tsrc/main.fcpeg:5";
    assert_eq!(
        BlockParseError::BlockAliasNotFound { pos: at(5), block_alias_name: "O".to_string() }.get_log_data(),
        shown(ConsoleLogKind::Error, "block alias 'O' not found", &[place])
    );
    assert_eq!(
        BlockParseError::DuplicatedBlockName { pos: at(5), block_name: "Main".to_string() }.get_log_data(),
        shown(ConsoleLogKind::Error, "duplicated block name 'Main'", &[place])
    );
    assert_eq!(
        BlockParseError::DuplicatedRuleName { pos: at(5), rule_name: "X".to_string() }.get_log_data(),
        shown(ConsoleLogKind::Error, "duplicated rule name 'X'", &[place])
    );
    assert_eq!(
        BlockParseError::DuplicatedStartCommand { pos: at(5) }.get_log_data(),
        shown(ConsoleLogKind::Error, "duplicated start command", &[place])
    );
    assert_eq!(
        BlockParseError::InvalidID { pos: at(5), id: "a.b.c.d".to_string() }.get_log_data(),
        shown(ConsoleLogKind::Error, "invalid id 'a.b.c.d'", &[place])
    );
    assert_eq!(
        BlockParseError::InvalidLoopCount { pos: at(5) }.get_log_data(),
        shown(ConsoleLogKind::Error, "invalid loop count", &[place])
    );
    assert_eq!(
        BlockParseError::NoChoiceOrExpressionContent { pos: at(5) }.get_log_data(),
        shown(ConsoleLogKind::Error, "no choice or expression content", &[place])
    );
    assert_eq!(
        BlockParseError::StartCommandOutsideMainBlock { pos: at(5) }.get_log_data(),
        shown(ConsoleLogKind::Error, "start command outside main block", &[place])
    );
    assert_eq!(
        BlockParseError::UnexpectedToken {
            pos: at(5),
            unexpected_token: ",".to_string(),
            expected_str: "':'".to_string(),
        }
        .get_log_data(),
        shown(ConsoleLogKind::Error, "unexpected token ',', expected ':'", &[place])
    );
    assert_eq!(
        BlockParseError::UnknownEscapeSequenceCharacter { pos: at(5) }.get_log_data(),
        shown(ConsoleLogKind::Error, "unknown escape sequence character", &[place])
    );
    assert_eq!(
        BlockParseError::UnknownRuleID { pos: CharacterPosition::get_empty(), rule_id: ".Syntax.X".to_string() }
            .get_log_data(),
        shown(ConsoleLogKind::Error, "unknown rule id '.Syntax.X'", &["at:\t0"])
    );
}

#[test]
fn errors_without_a_place_show_their_title_alone() {
    assert_eq!(
        BlockParseError::DuplicatedFileAliasName { file_alias_name: "f2".to_string() }.get_log_data(),
        shown(ConsoleLogKind::Error, "duplicated file alias name 'f2'", &[])
    );
    assert_eq!(
        BlockParseError::InternalError { msg: "pure choice not found".to_string() }.get_log_data(),
        shown(ConsoleLogKind::Error, "internal error: pure choice not found", &[])
    );
    assert_eq!(
        BlockParseError::MainBlockNotDefined.get_log_data(),
        shown(ConsoleLogKind::Error, "main block not defined", &[])
    );
    assert_eq!(
        BlockParseError::NoStartCommandInMainBlock.get_log_data(),
        shown(ConsoleLogKind::Error, "no start command in main block", &[])
    );
}

#[test]
fn warnings_are_told_from_errors() {
    let private = BlockParseError::AttemptToAccessPrivateItem { pos: at(5), item_id: ".Other._R".to_string() };
    assert!(private.is_warning());
    assert_eq!(
        private.get_log_data(),
        shown(ConsoleLogKind::Warning, "attempt to access private item", &["at:\tsrc/main.fcpeg:5", "id:\t.Other._R"])
    );
    let naming = BlockParseError::NamingRuleViolation { pos: at(9), id: "main".to_string() };
    assert!(naming.is_warning());
    assert_eq!(
        naming.get_log_data(),
        shown(ConsoleLogKind::Warning, "naming rule violation", &["at:\tsrc/main.fcpeg:9", "id:\tmain"])
    );
    let repeated = BlockParseError::DuplicatedArgumentID { pos: at(3), arg_id: "T".to_string() };
    assert!(repeated.is_warning());
    assert_eq!(
        repeated.get_log_data(),
        shown(ConsoleLogKind::Warning, "duplicated argument id 'T'", &["at:\tsrc/main.fcpeg:3"])
    );
    assert!(!BlockParseError::MainBlockNotDefined.is_warning());
    assert!(!BlockParseError::InvalidLoopCount { pos: at(1) }.is_warning());
    assert_eq!(BlockParseError::MainBlockNotDefined.get_position(), None);
    assert_eq!(BlockParseError::InvalidLoopCount { pos: at(1) }.get_position(), Some(&at(1)));
}

#[test]
fn the_sink_keeps_diagnostics_in_order() {
    let mut cons = Console::new();
    assert_eq!(cons.logs, vec![]);
    assert!(!cons.has_error());
    cons.append_log(BlockParseError::NamingRuleViolation { pos: at(9), id: "main".to_string() });
    assert!(!cons.has_error());
    cons.append_log(BlockParseError::MainBlockNotDefined);
    cons.append_log(BlockParseError::NamingRuleViolation { pos: at(11), id: "x".to_string() });
    assert!(cons.has_error());
    assert_eq!(
        cons.logs,
        vec![
            BlockParseError::NamingRuleViolation { pos: at(9), id: "main".to_string() },
            BlockParseError::MainBlockNotDefined,
            BlockParseError::NamingRuleViolation { pos: at(11), id: "x".to_string() },
        ]
    );
}
