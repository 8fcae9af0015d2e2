//! Diagnostics: what can go wrong while a grammar is lowered and assembled,
//! and how each diagnostic reads.

use vstd::prelude::*;
use crate::position::{position_text, CharacterPosition, CharacterPositionView};
use crate::rule::views;
use crate::text::{appended, string_views};

verus! {

/// A diagnostic. Warnings are collected and do not stop the work; any other
/// diagnostic is an error and ends the lowering of the file it occurs in.
#[derive(Debug, PartialEq, Eq)]
pub enum BlockParseError {
    /// A two-part identifier names a block alias that the block does not
    /// declare.
    BlockAliasNotFound { pos: CharacterPosition, block_alias_name: String },
    /// Warning: a rule whose name starts with an underscore is referenced
    /// from another block.
    AttemptToAccessPrivateItem { pos: CharacterPosition, item_id: String },
    /// Two blocks of one file share a name.
    DuplicatedBlockName { pos: CharacterPosition, block_name: String },
    /// Two files share an alias.
    DuplicatedFileAliasName { file_alias_name: String },
    /// Warning: a parameter name occurs twice in one parameter list.
    DuplicatedArgumentID { pos: CharacterPosition, arg_id: String },
    /// Two rules of one block share a name.
    DuplicatedRuleName { pos: CharacterPosition, rule_name: String },
    /// The top-level file holds a second start command.
    DuplicatedStartCommand { pos: CharacterPosition },
    /// The syntax tree does not have the shape that the lowering relies on.
    InternalError { msg: String },
    /// A chain identifier has the wrong number of parts.
    InvalidID { pos: CharacterPosition, id: String },
    /// A loop count that cannot be read, or whose bounds admit no
    /// repetition.
    InvalidLoopCount { pos: CharacterPosition },
    /// The top-level file has no block named `Main`.
    MainBlockNotDefined,
    /// Warning: the name of a block or of a rule is not in Pascal case.
    NamingRuleViolation { pos: CharacterPosition, id: String },
    /// A choice without alternatives.
    NoChoiceOrExpressionContent { pos: CharacterPosition },
    /// No start command was found in the top-level file.
    NoStartCommandInMainBlock,
    /// A start command stands in a block that is not named `Main`.
    StartCommandOutsideMainBlock { pos: CharacterPosition },
    /// A token stands where another was expected.
    UnexpectedToken { pos: CharacterPosition, unexpected_token: String, expected_str: String },
    /// A string holds an escape sequence that is not defined.
    UnknownEscapeSequenceCharacter { pos: CharacterPosition },
    /// A rule body references a rule that no file defines.
    UnknownRuleID { pos: CharacterPosition, rule_id: String },
}

/// The view of a diagnostic.
pub ghost enum BlockParseErrorView {
    BlockAliasNotFound { pos: CharacterPositionView, block_alias_name: Seq<char> },
    AttemptToAccessPrivateItem { pos: CharacterPositionView, item_id: Seq<char> },
    DuplicatedBlockName { pos: CharacterPositionView, block_name: Seq<char> },
    DuplicatedFileAliasName { file_alias_name: Seq<char> },
    DuplicatedArgumentID { pos: CharacterPositionView, arg_id: Seq<char> },
    DuplicatedRuleName { pos: CharacterPositionView, rule_name: Seq<char> },
    DuplicatedStartCommand { pos: CharacterPositionView },
    InternalError { msg: Seq<char> },
    InvalidID { pos: CharacterPositionView, id: Seq<char> },
    InvalidLoopCount { pos: CharacterPositionView },
    MainBlockNotDefined,
    NamingRuleViolation { pos: CharacterPositionView, id: Seq<char> },
    NoChoiceOrExpressionContent { pos: CharacterPositionView },
    NoStartCommandInMainBlock,
    StartCommandOutsideMainBlock { pos: CharacterPositionView },
    UnexpectedToken {
        pos: CharacterPositionView,
        unexpected_token: Seq<char>,
        expected_str: Seq<char>,
    },
    UnknownEscapeSequenceCharacter { pos: CharacterPositionView },
    UnknownRuleID { pos: CharacterPositionView, rule_id: Seq<char> },
}

impl View for BlockParseError {
    type V = BlockParseErrorView;

    open spec fn view(&self) -> BlockParseErrorView {
        match self {
            BlockParseError::BlockAliasNotFound { pos, block_alias_name } => BlockParseErrorView::BlockAliasNotFound {
                pos: pos@,
                block_alias_name: block_alias_name@,
            },
            BlockParseError::AttemptToAccessPrivateItem { pos, item_id } => BlockParseErrorView::AttemptToAccessPrivateItem {
                pos: pos@,
                item_id: item_id@,
            },
            BlockParseError::DuplicatedBlockName { pos, block_name } => BlockParseErrorView::DuplicatedBlockName {
                pos: pos@,
                block_name: block_name@,
            },
            BlockParseError::DuplicatedFileAliasName { file_alias_name } => BlockParseErrorView::DuplicatedFileAliasName {
                file_alias_name: file_alias_name@,
            },
            BlockParseError::DuplicatedArgumentID { pos, arg_id } => BlockParseErrorView::DuplicatedArgumentID {
                pos: pos@,
                arg_id: arg_id@,
            },
            BlockParseError::DuplicatedRuleName { pos, rule_name } => BlockParseErrorView::DuplicatedRuleName {
                pos: pos@,
                rule_name: rule_name@,
            },
            BlockParseError::DuplicatedStartCommand { pos } => BlockParseErrorView::DuplicatedStartCommand {
                pos: pos@,
            },
            BlockParseError::InternalError { msg } => BlockParseErrorView::InternalError {
                msg: msg@,
            },
            BlockParseError::InvalidID { pos, id } => BlockParseErrorView::InvalidID {
                pos: pos@,
                id: id@,
            },
            BlockParseError::InvalidLoopCount { pos } => BlockParseErrorView::InvalidLoopCount {
                pos: pos@,
            },
            BlockParseError::MainBlockNotDefined => BlockParseErrorView::MainBlockNotDefined,
            BlockParseError::NamingRuleViolation { pos, id } => BlockParseErrorView::NamingRuleViolation {
                pos: pos@,
                id: id@,
            },
            BlockParseError::NoChoiceOrExpressionContent { pos } => BlockParseErrorView::NoChoiceOrExpressionContent {
                pos: pos@,
            },
            BlockParseError::NoStartCommandInMainBlock => BlockParseErrorView::NoStartCommandInMainBlock,
            BlockParseError::StartCommandOutsideMainBlock { pos } => BlockParseErrorView::StartCommandOutsideMainBlock {
                pos: pos@,
            },
            BlockParseError::UnexpectedToken { pos, unexpected_token, expected_str } => BlockParseErrorView::UnexpectedToken {
                pos: pos@,
                unexpected_token: unexpected_token@,
                expected_str: expected_str@,
            },
            BlockParseError::UnknownEscapeSequenceCharacter { pos } => BlockParseErrorView::UnknownEscapeSequenceCharacter {
                pos: pos@,
            },
            BlockParseError::UnknownRuleID { pos, rule_id } => BlockParseErrorView::UnknownRuleID {
                pos: pos@,
                rule_id: rule_id@,
            },
        }
    }
}

/// How grave a diagnostic is.
#[derive(Clone, Copy, Debug, PartialEq, Eq, Structural)]
pub enum ConsoleLogKind {
    Error,
    Warning,
}

/// A diagnostic as it is shown: its kind, a title, and lines of detail.
#[derive(Debug, PartialEq, Eq)]
pub struct ConsoleLogData {
    pub kind: ConsoleLogKind,
    pub title: String,
    pub descs: Vec<String>,
}

/// The view of a shown diagnostic.
pub ghost struct ConsoleLogDataView {
    pub kind: ConsoleLogKind,
    pub title: Seq<char>,
    pub descs: Seq<Seq<char>>,
}

impl View for ConsoleLogData {
    type V = ConsoleLogDataView;

    open spec fn view(&self) -> ConsoleLogDataView {
        ConsoleLogDataView {
            kind: self.kind,
            title: self.title@,
            descs: string_views(self.descs@),
        }
    }
}

impl BlockParseErrorView {
    /// The three warnings; every other diagnostic is an error.
    pub open spec fn is_warning(self) -> bool {
        self is AttemptToAccessPrivateItem || self is DuplicatedArgumentID
            || self is NamingRuleViolation
    }

    /// How grave the diagnostic is.
    pub open spec fn log_kind(self) -> ConsoleLogKind {
        if self.is_warning() {
            ConsoleLogKind::Warning
        } else {
            ConsoleLogKind::Error
        }
    }

    /// The title under which the diagnostic is shown.
    pub open spec fn log_title(self) -> Seq<char> {
        match self {
            BlockParseErrorView::BlockAliasNotFound { pos, block_alias_name } => "block alias '"@
                + block_alias_name + "' not found"@,
            BlockParseErrorView::AttemptToAccessPrivateItem { pos, item_id } => "attempt to access private item"@,
            BlockParseErrorView::DuplicatedBlockName { pos, block_name } => "duplicated block name '"@
                + block_name + "'"@,
            BlockParseErrorView::DuplicatedFileAliasName { file_alias_name } => "duplicated file alias name '"@
                + file_alias_name + "'"@,
            BlockParseErrorView::DuplicatedArgumentID { pos, arg_id } => "duplicated argument id '"@
                + arg_id + "'"@,
            BlockParseErrorView::DuplicatedRuleName { pos, rule_name } => "duplicated rule name '"@
                + rule_name + "'"@,
            BlockParseErrorView::DuplicatedStartCommand { pos } => "duplicated start command"@,
            BlockParseErrorView::InternalError { msg } => "internal error: "@ + msg,
            BlockParseErrorView::InvalidID { pos, id } => "invalid id '"@ + id + "'"@,
            BlockParseErrorView::InvalidLoopCount { pos } => "invalid loop count"@,
            BlockParseErrorView::MainBlockNotDefined => "main block not defined"@,
            BlockParseErrorView::NamingRuleViolation { pos, id } => "naming rule violation"@,
            BlockParseErrorView::NoChoiceOrExpressionContent { pos } => "no choice or expression content"@,
            BlockParseErrorView::NoStartCommandInMainBlock => "no start command in main block"@,
            BlockParseErrorView::StartCommandOutsideMainBlock { pos } => "start command outside main block"@,
            BlockParseErrorView::UnexpectedToken { pos, unexpected_token, expected_str } => "unexpected token '"@
                + unexpected_token + "', expected "@ + expected_str,
            BlockParseErrorView::UnknownEscapeSequenceCharacter { pos } => "unknown escape sequence character"@,
            BlockParseErrorView::UnknownRuleID { pos, rule_id } => "unknown rule id '"@ + rule_id
                + "'"@,
        }
    }

    /// The place that the diagnostic points at, where it has one.
    pub open spec fn position(self) -> Option<CharacterPositionView> {
        match self {
            BlockParseErrorView::BlockAliasNotFound { pos, block_alias_name } => Some(pos),
            BlockParseErrorView::AttemptToAccessPrivateItem { pos, item_id } => Some(pos),
            BlockParseErrorView::DuplicatedBlockName { pos, block_name } => Some(pos),
            BlockParseErrorView::DuplicatedFileAliasName { file_alias_name } => None,
            BlockParseErrorView::DuplicatedArgumentID { pos, arg_id } => Some(pos),
            BlockParseErrorView::DuplicatedRuleName { pos, rule_name } => Some(pos),
            BlockParseErrorView::DuplicatedStartCommand { pos } => Some(pos),
            BlockParseErrorView::InternalError { msg } => None,
            BlockParseErrorView::InvalidID { pos, id } => Some(pos),
            BlockParseErrorView::InvalidLoopCount { pos } => Some(pos),
            BlockParseErrorView::MainBlockNotDefined => None,
            BlockParseErrorView::NamingRuleViolation { pos, id } => Some(pos),
            BlockParseErrorView::NoChoiceOrExpressionContent { pos } => Some(pos),
            BlockParseErrorView::NoStartCommandInMainBlock => None,
            BlockParseErrorView::StartCommandOutsideMainBlock { pos } => Some(pos),
            BlockParseErrorView::UnexpectedToken { pos, unexpected_token, expected_str } => Some(
                pos,
            ),
            BlockParseErrorView::UnknownEscapeSequenceCharacter { pos } => Some(pos),
            BlockParseErrorView::UnknownRuleID { pos, rule_id } => Some(pos),
        }
    }

    /// The identifier that a warning about a name or an item adds as a
    /// second line of detail.
    pub open spec fn subject(self) -> Option<Seq<char>> {
        match self {
            BlockParseErrorView::AttemptToAccessPrivateItem { pos, item_id } => Some(item_id),
            BlockParseErrorView::NamingRuleViolation { pos, id } => Some(id),
            _ => None,
        }
    }

    /// The lines of detail: the place, after `at:` and a tab, and then the
    /// subject, after `id:` and a tab, each where the diagnostic has one.
    pub open spec fn log_descs(self) -> Seq<Seq<char>> {
        let place = match self.position() {
            Some(pos) => seq!["at:\t"@ + position_text(pos)],
            None => Seq::empty(),
        };
        match self.subject() {
            Some(id) => place.push("id:\t"@ + id),
            None => place,
        }
    }

    /// The diagnostic as it is shown.
    pub open spec fn log_data(self) -> ConsoleLogDataView {
        ConsoleLogDataView {
            kind: self.log_kind(),
            title: self.log_title(),
            descs: self.log_descs(),
        }
    }
}

fn quoted(head: &str, name: &String, tail: &str) -> (r: String)
    ensures
        r@ == head@ + name@ + tail@,
{
    let mut s = String::from_str(head);
    s.append(name.as_str());
    s.append(tail);
    s
}

impl BlockParseError {
    /// Whether the diagnostic is a warning.
    pub fn is_warning(&self) -> (r: bool)
        ensures
            r == self@.is_warning(),
    {
        match self {
            BlockParseError::AttemptToAccessPrivateItem { .. } => true,
            BlockParseError::DuplicatedArgumentID { .. } => true,
            BlockParseError::NamingRuleViolation { .. } => true,
            _ => false,
        }
    }

    /// The place that the diagnostic points at.
    pub fn get_position(&self) -> (r: Option<&CharacterPosition>)
        ensures
            match r {
                Some(pos) => self@.position() == Some(pos@),
                None => self@.position() is None,
            },
    {
        match self {
            BlockParseError::BlockAliasNotFound { pos, .. } => Some(pos),
            BlockParseError::AttemptToAccessPrivateItem { pos, .. } => Some(pos),
            BlockParseError::DuplicatedBlockName { pos, .. } => Some(pos),
            BlockParseError::DuplicatedFileAliasName { .. } => None,
            BlockParseError::DuplicatedArgumentID { pos, .. } => Some(pos),
            BlockParseError::DuplicatedRuleName { pos, .. } => Some(pos),
            BlockParseError::DuplicatedStartCommand { pos } => Some(pos),
            BlockParseError::InternalError { .. } => None,
            BlockParseError::InvalidID { pos, .. } => Some(pos),
            BlockParseError::InvalidLoopCount { pos } => Some(pos),
            BlockParseError::MainBlockNotDefined => None,
            BlockParseError::NamingRuleViolation { pos, .. } => Some(pos),
            BlockParseError::NoChoiceOrExpressionContent { pos } => Some(pos),
            BlockParseError::NoStartCommandInMainBlock => None,
            BlockParseError::StartCommandOutsideMainBlock { pos } => Some(pos),
            BlockParseError::UnexpectedToken { pos, .. } => Some(pos),
            BlockParseError::UnknownEscapeSequenceCharacter { pos } => Some(pos),
            BlockParseError::UnknownRuleID { pos, .. } => Some(pos),
        }
    }

    fn get_title(&self) -> (r: String)
        ensures
            r@ == self@.log_title(),
    {
        match self {
            BlockParseError::BlockAliasNotFound { block_alias_name, .. } => quoted(
                "block alias '",
                block_alias_name,
                "' not found",
            ),
            BlockParseError::AttemptToAccessPrivateItem { .. } => String::from_str(
                "attempt to access private item",
            ),
            BlockParseError::DuplicatedBlockName { block_name, .. } => quoted(
                "duplicated block name '",
                block_name,
                "'",
            ),
            BlockParseError::DuplicatedFileAliasName { file_alias_name } => quoted(
                "duplicated file alias name '",
                file_alias_name,
                "'",
            ),
            BlockParseError::DuplicatedArgumentID { arg_id, .. } => quoted(
                "duplicated argument id '",
                arg_id,
                "'",
            ),
            BlockParseError::DuplicatedRuleName { rule_name, .. } => quoted(
                "duplicated rule name '",
                rule_name,
                "'",
            ),
            BlockParseError::DuplicatedStartCommand { .. } => String::from_str(
                "duplicated start command",
            ),
            BlockParseError::InternalError { msg } => {
                let head = String::from_str("internal error: ");
                appended(&head, msg.as_str())
            },
            BlockParseError::InvalidID { id, .. } => quoted("invalid id '", id, "'"),
            BlockParseError::InvalidLoopCount { .. } => String::from_str("invalid loop count"),
            BlockParseError::MainBlockNotDefined => String::from_str("main block not defined"),
            BlockParseError::NamingRuleViolation { .. } => String::from_str(
                "naming rule violation",
            ),
            BlockParseError::NoChoiceOrExpressionContent { .. } => String::from_str(
                "no choice or expression content",
            ),
            BlockParseError::NoStartCommandInMainBlock => String::from_str(
                "no start command in main block",
            ),
            BlockParseError::StartCommandOutsideMainBlock { .. } => String::from_str(
                "start command outside main block",
            ),
            BlockParseError::UnexpectedToken { unexpected_token, expected_str, .. } => {
                let head = quoted("unexpected token '", unexpected_token, "', expected ");
                appended(&head, expected_str.as_str())
            },
            BlockParseError::UnknownEscapeSequenceCharacter { .. } => String::from_str(
                "unknown escape sequence character",
            ),
            BlockParseError::UnknownRuleID { rule_id, .. } => quoted(
                "unknown rule id '",
                rule_id,
                "'",
            ),
        }
    }

    /// The diagnostic as it is shown.
    pub fn get_log_data(&self) -> (r: ConsoleLogData)
        ensures
            r@ == self@.log_data(),
    {
        let kind = if self.is_warning() {
            ConsoleLogKind::Warning
        } else {
            ConsoleLogKind::Error
        };
        let title = self.get_title();
        let mut descs: Vec<String> = Vec::new();
        match self.get_position() {
            Some(pos) => {
                let place = pos.to_text();
                let head = String::from_str("at:\t");
                descs.push(appended(&head, place.as_str()));
            },
            None => {},
        }
        match self {
            BlockParseError::AttemptToAccessPrivateItem { item_id, .. } => {
                let head = String::from_str("id:\t");
                descs.push(appended(&head, item_id.as_str()));
            },
            BlockParseError::NamingRuleViolation { id, .. } => {
                let head = String::from_str("id:\t");
                descs.push(appended(&head, id.as_str()));
            },
            _ => {},
        }
        let r = ConsoleLogData { kind, title, descs };
        assert(r@.descs =~= self@.log_descs());
        r
    }
}

/// The sink of diagnostics: they are kept in the order in which they were
/// appended.
#[derive(Debug, PartialEq, Eq)]
pub struct Console {
    pub logs: Vec<BlockParseError>,
}

impl View for Console {
    type V = Seq<BlockParseErrorView>;

    open spec fn view(&self) -> Seq<BlockParseErrorView> {
        views(self.logs@)
    }
}

/// Whether a list of diagnostics holds an error.
pub open spec fn has_error(logs: Seq<BlockParseErrorView>) -> bool {
    exists|i: int| 0 <= i < logs.len() && !(#[trigger] logs[i]).is_warning()
}

impl Console {
    /// An empty sink.
    pub fn new() -> (r: Self)
        ensures
            r@ == Seq::<BlockParseErrorView>::empty(),
    {
        let r = Console { logs: Vec::new() };
        assert(r@ =~= Seq::<BlockParseErrorView>::empty());
        r
    }

    /// Appends a diagnostic.
    pub fn append_log(&mut self, log: BlockParseError)
        ensures
            final(self)@ == old(self)@.push(log@),
    {
        self.logs.push(log);
        assert(self@ =~= old(self)@.push(log@));
    }

    /// Whether the sink holds an error.
    pub fn has_error(&self) -> (r: bool)
        ensures
            r == has_error(self@),
    {
        let mut i: usize = 0;
        while i < self.logs.len()
            invariant
                0 <= i <= self.logs.len(),
                forall|j: int| 0 <= j < i ==> (#[trigger] self@[j]).is_warning(),
            decreases self.logs.len() - i,
        {
            if !self.logs[i].is_warning() {
                assert(!self@[i as int].is_warning());
                return true;
            }
            i = i + 1;
        }
        false
    }
}

} // verus!
