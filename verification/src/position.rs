//! Positions in grammar sources.

use vstd::prelude::*;
use crate::text::{decimal_text, number_text};

verus! {

/// A place in a grammar source: the path of the file and a byte offset into
/// it. The empty position, with no path and offset zero, stands where no
/// place is known.
#[derive(Debug, PartialEq, Eq)]
pub struct CharacterPosition {
    pub file_path: Option<String>,
    pub index: usize,
}

/// The view of a position.
pub ghost struct CharacterPositionView {
    pub file_path: Option<Seq<char>>,
    pub index: int,
}

impl View for CharacterPosition {
    type V = CharacterPositionView;

    open spec fn view(&self) -> CharacterPositionView {
        CharacterPositionView {
            file_path: match self.file_path {
                Some(p) => Some(p@),
                None => None,
            },
            index: self.index as int,
        }
    }
}

impl Clone for CharacterPosition {
    fn clone(&self) -> (r: Self)
        ensures
            r == *self,
    {
        CharacterPosition {
            file_path: match &self.file_path {
                Some(p) => Some(p.clone()),
                None => None,
            },
            index: self.index,
        }
    }
}

/// The empty position.
pub open spec fn empty_position() -> CharacterPositionView {
    CharacterPositionView { file_path: None, index: 0 }
}

/// How a position reads in a diagnostic: the path, a colon and the offset,
/// or the offset alone where there is no path.
pub open spec fn position_text(p: CharacterPositionView) -> Seq<char> {
    match p.file_path {
        Some(path) => path + seq![':'] + decimal_text(p.index as nat),
        None => decimal_text(p.index as nat),
    }
}

impl CharacterPosition {
    /// The position at the offset `index` of the file `file_path`.
    pub fn new(file_path: Option<String>, index: usize) -> (r: Self)
        ensures
            r.file_path == file_path,
            r.index == index,
    {
        CharacterPosition { file_path, index }
    }

    /// The empty position.
    pub fn get_empty() -> (r: Self)
        ensures
            r@ == empty_position(),
    {
        CharacterPosition { file_path: None, index: 0 }
    }

    /// The position as it reads in a diagnostic.
    pub fn to_text(&self) -> (r: String)
        ensures
            r@ == position_text(self@),
    {
        let digits = number_text(self.index);
        match &self.file_path {
            Some(path) => {
                proof {
                    reveal_strlit(":");
                }
                let mut s = path.clone();
                s.append(":");
                s.append(digits.as_str());
                assert(":"@ =~= seq![':']);
                s
            },
            None => digits,
        }
    }
}

} // verus!
