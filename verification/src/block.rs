//! Blocks: named containers of commands.

use vstd::prelude::*;
use crate::position::{CharacterPosition, CharacterPositionView};
use crate::rule::{views, Rule, RuleView};
use crate::string_map::StringMap;

verus! {

/// One command of a block: a comment, the definition of a rule, the choice
/// of the start rule, or the declaration of an alias for a block.
#[derive(Debug, PartialEq, Eq)]
pub enum BlockCommand {
    Comment { pos: CharacterPosition, value: String },
    Define { pos: CharacterPosition, rule: Rule },
    Start { pos: CharacterPosition, file_alias_name: String, block_name: String, rule_name: String },
    Use {
        pos: CharacterPosition,
        file_alias_name: String,
        block_name: String,
        block_alias_name: String,
    },
}

/// The view of a command.
pub ghost enum BlockCommandView {
    Comment { pos: CharacterPositionView, value: Seq<char> },
    Define { pos: CharacterPositionView, rule: RuleView },
    Start {
        pos: CharacterPositionView,
        file_alias_name: Seq<char>,
        block_name: Seq<char>,
        rule_name: Seq<char>,
    },
    Use {
        pos: CharacterPositionView,
        file_alias_name: Seq<char>,
        block_name: Seq<char>,
        block_alias_name: Seq<char>,
    },
}

impl View for BlockCommand {
    type V = BlockCommandView;

    open spec fn view(&self) -> BlockCommandView {
        match self {
            BlockCommand::Comment { pos, value } => BlockCommandView::Comment {
                pos: pos@,
                value: value@,
            },
            BlockCommand::Define { pos, rule } => BlockCommandView::Define {
                pos: pos@,
                rule: rule@,
            },
            BlockCommand::Start { pos, file_alias_name, block_name, rule_name } => BlockCommandView::Start {
                pos: pos@,
                file_alias_name: file_alias_name@,
                block_name: block_name@,
                rule_name: rule_name@,
            },
            BlockCommand::Use { pos, file_alias_name, block_name, block_alias_name } => BlockCommandView::Use {
                pos: pos@,
                file_alias_name: file_alias_name@,
                block_name: block_name@,
                block_alias_name: block_alias_name@,
            },
        }
    }
}

/// A block: its name and its commands in source order.
#[derive(Debug, PartialEq, Eq)]
pub struct Block {
    pub name: String,
    pub cmds: Vec<BlockCommand>,
}

/// The view of a block.
pub ghost struct BlockView {
    pub name: Seq<char>,
    pub cmds: Seq<BlockCommandView>,
}

impl View for Block {
    type V = BlockView;

    open spec fn view(&self) -> BlockView {
        BlockView { name: self.name@, cmds: views(self.cmds@) }
    }
}

impl Block {
    pub fn new(name: String, cmds: Vec<BlockCommand>) -> (r: Self)
        ensures
            r.name == name,
            r.cmds == cmds,
    {
        Block { name, cmds }
    }
}

/// The blocks of one file by name.
pub type BlockMap = StringMap<Block>;

} // verus!
