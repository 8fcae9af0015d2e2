//! Identifier resolution: from the parts of a chain identifier, as written
//! in a rule body, to the fully-qualified identifier of the rule it names.

use vstd::prelude::*;
use crate::error::{BlockParseError, BlockParseErrorView, Console};
use crate::position::{CharacterPosition, CharacterPositionView};
use crate::string_map::{lemma_put_lookup, lookup, put, put_new, StringMap};
use crate::text::{is_private_name, private_name, qualified, qualify, string_views};

verus! {

/// The view of a result.
pub open spec fn result_view<T: View, E: View>(r: Result<T, E>) -> Result<T::V, E::V> {
    match r {
        Ok(value) => Ok(value@),
        Err(error) => Err(error@),
    }
}

/// What lowering a piece of a syntax tree gives: the lowered value or the
/// error that ended the work, the references to rules that were met on the
/// way, in order, and the warnings that were raised on the way, in order.
pub ghost struct Lowered<T> {
    pub value: Result<T, BlockParseErrorView>,
    pub refs: Seq<(Seq<char>, CharacterPositionView)>,
    pub warnings: Seq<BlockParseErrorView>,
}

impl<T> Lowered<T> {
    /// A value, reached without references or warnings.
    pub open spec fn done(value: T) -> Lowered<T> {
        Lowered { value: Ok(value), refs: Seq::empty(), warnings: Seq::empty() }
    }

    /// An error, reached without references or warnings.
    pub open spec fn fail(error: BlockParseErrorView) -> Lowered<T> {
        Lowered { value: Err(error), refs: Seq::empty(), warnings: Seq::empty() }
    }

    /// The same outcome, reached after the given references and warnings.
    pub open spec fn after(
        self,
        refs: Seq<(Seq<char>, CharacterPositionView)>,
        warnings: Seq<BlockParseErrorView>,
    ) -> Lowered<T> {
        Lowered { value: self.value, refs: refs + self.refs, warnings: warnings + self.warnings }
    }

    /// The same outcome with another value in place of the lowered one.
    pub open spec fn with<U>(self, value: Result<U, BlockParseErrorView>) -> Lowered<U> {
        Lowered { value, refs: self.refs, warnings: self.warnings }
    }

    /// The failure of this outcome as the failure of a larger piece.
    pub open spec fn failed<U>(self) -> Lowered<U> {
        Lowered {
            value: match self.value {
                Ok(_) => arbitrary(),
                Err(error) => Err(error),
            },
            refs: self.refs,
            warnings: self.warnings,
        }
    }
}

/// The diagnostic for a syntax tree that lacks a part.
pub open spec fn malformed() -> BlockParseErrorView {
    BlockParseErrorView::InternalError { msg: "invalid syntax tree structure"@ }
}

/// The diagnostic for a syntax tree that lacks a part.
pub fn malformed_tree() -> (r: BlockParseError)
    ensures
        r@ == malformed(),
{
    BlockParseError::InternalError { msg: String::from_str("invalid syntax tree structure") }
}

/// The identifiers met so far, each with the place where it was first met:
/// the record after one more reference.
pub open spec fn recorded(
    appeared: Seq<(Seq<char>, CharacterPositionView)>,
    refs: Seq<(Seq<char>, CharacterPositionView)>,
) -> Seq<(Seq<char>, CharacterPositionView)>
    decreases refs.len(),
{
    if refs.len() == 0 {
        appeared
    } else {
        put_new(recorded(appeared, refs.drop_last()), refs.last().0, refs.last().1)
    }
}

/// Recording two runs of references one after the other is recording
/// their concatenation.
pub proof fn lemma_recorded_concat(
    appeared: Seq<(Seq<char>, CharacterPositionView)>,
    first: Seq<(Seq<char>, CharacterPositionView)>,
    second: Seq<(Seq<char>, CharacterPositionView)>,
)
    ensures
        recorded(recorded(appeared, first), second) == recorded(appeared, first + second),
    decreases second.len(),
{
    if second.len() == 0 {
        assert(first + second =~= first);
    } else {
        lemma_recorded_concat(appeared, first, second.drop_last());
        assert((first + second).drop_last() =~= first + second.drop_last());
        assert((first + second).last() == second.last());
    }
}

/// Recording one reference puts it into the record unless its identifier
/// stands there.
pub proof fn lemma_recorded_one(
    appeared: Seq<(Seq<char>, CharacterPositionView)>,
    id: Seq<char>,
    pos: CharacterPositionView,
)
    ensures
        recorded(appeared, seq![(id, pos)]) == put_new(appeared, id, pos),
{
    let one = seq![(id, pos)];
    assert(one.drop_last() =~= Seq::empty());
    assert(recorded(appeared, one.drop_last()) == appeared);
}

/// The identifiers that rule bodies have referenced so far, each with the
/// place of its first reference.
pub type AppearedIds = StringMap<CharacterPosition>;

/// The aliases that a block has declared so far: from alias to the file
/// alias and the name of the block that it stands for.
pub type BlockAliasMap = StringMap<(String, String)>;

/// Where a rule body stands: the alias of its file, the name of its block,
/// and the block aliases declared before it in that block.
#[derive(Debug)]
pub struct Scope {
    pub file_alias_name: String,
    pub block_name: String,
    pub block_alias_map: BlockAliasMap,
}

/// The view of a scope.
pub ghost struct ScopeView {
    pub file_alias_name: Seq<char>,
    pub block_name: Seq<char>,
    pub aliases: Seq<(Seq<char>, (Seq<char>, Seq<char>))>,
}

impl View for Scope {
    type V = ScopeView;

    open spec fn view(&self) -> ScopeView {
        ScopeView {
            file_alias_name: self.file_alias_name@,
            block_name: self.block_name@,
            aliases: self.block_alias_map@,
        }
    }
}

impl Scope {
    /// The table of block aliases is well formed.
    pub open spec fn wf(&self) -> bool {
        self.block_alias_map.wf()
    }
}

/// The resolved identifier `id` of a rule named `rule_name` in the block
/// named `target_block`, with the warning that is due where the rule is
/// private and the reference stands in a block of another name.
pub open spec fn resolved_as(
    pos: CharacterPositionView,
    id: Seq<char>,
    target_block: Seq<char>,
    rule_name: Seq<char>,
    scope: ScopeView,
) -> Lowered<Seq<char>> {
    Lowered {
        value: Ok(id),
        refs: Seq::empty(),
        warnings: if private_name(rule_name) && scope.block_name != target_block {
            seq![BlockParseErrorView::AttemptToAccessPrivateItem { pos, item_id: id }]
        } else {
            Seq::empty()
        },
    }
}

/// The fully-qualified identifier that a chain of one, two or three parts
/// names: a rule of the current block; a rule of the block that the first
/// part is an alias of; or file alias, block and rule in full.
pub open spec fn resolved_rule_id(
    pos: CharacterPositionView,
    tokens: Seq<Seq<char>>,
    scope: ScopeView,
) -> Lowered<Seq<char>> {
    if tokens.len() == 1 {
        resolved_as(
            pos,
            qualified(scope.file_alias_name, scope.block_name, tokens[0]),
            scope.block_name,
            tokens[0],
            scope,
        )
    } else if tokens.len() == 2 {
        match lookup(scope.aliases, tokens[0]) {
            Some(target) => resolved_as(
                pos,
                qualified(target.0, target.1, tokens[1]),
                target.1,
                tokens[1],
                scope,
            ),
            None => Lowered::fail(
                BlockParseErrorView::BlockAliasNotFound { pos, block_alias_name: tokens[0] },
            ),
        }
    } else if tokens.len() == 3 {
        resolved_as(pos, qualified(tokens[0], tokens[1], tokens[2]), tokens[1], tokens[2], scope)
    } else {
        Lowered::fail(BlockParseErrorView::InternalError { msg: "invalid id expression"@ })
    }
}

/// Alias transparency: once a block has declared `alias` for the block
/// `block` of the file `file`, the two-part identifier `alias.rule`
/// resolves to `file.block.rule`, whatever was declared before.
pub proof fn lemma_alias_transparency(
    scope: ScopeView,
    alias: Seq<char>,
    file: Seq<char>,
    block: Seq<char>,
    rule: Seq<char>,
    pos: CharacterPositionView,
)
    ensures
        resolved_rule_id(
            pos,
            seq![alias, rule],
            ScopeView { aliases: put(scope.aliases, alias, (file, block)), ..scope },
        ).value == Ok::<Seq<char>, BlockParseErrorView>(qualified(file, block, rule)),
{
    lemma_put_lookup(scope.aliases, alias, (file, block), alias);
}

/// Resolves a chain identifier that stands at `pos` in a rule body.
pub fn to_rule_id(
    cons: &mut Console,
    pos: &CharacterPosition,
    id_tokens: &Vec<String>,
    scope: &Scope,
) -> (r: Result<String, BlockParseError>)
    requires
        scope.wf(),
    ensures
        result_view(r) == resolved_rule_id(pos@, string_views(id_tokens@), scope@).value,
        final(cons)@ == old(cons)@ + resolved_rule_id(pos@, string_views(id_tokens@), scope@).warnings,
{
    let ghost tokens = string_views(id_tokens@);
    let n = id_tokens.len();
    if n == 1 {
        let id = qualify(&scope.file_alias_name, &scope.block_name, &id_tokens[0]);
        assert(tokens[0] == id_tokens@[0]@);
        warn_if_private(cons, pos, id, &scope.block_name, &id_tokens[0], scope)
    } else if n == 2 {
        assert(tokens[0] == id_tokens@[0]@);
        assert(tokens[1] == id_tokens@[1]@);
        match scope.block_alias_map.get(&id_tokens[0]) {
            Some(target) => {
                let id = qualify(&target.0, &target.1, &id_tokens[1]);
                warn_if_private(cons, pos, id, &target.1, &id_tokens[1], scope)
            },
            None => {
                assert(cons@ + Seq::<BlockParseErrorView>::empty() =~= cons@);
                Err(
                    BlockParseError::BlockAliasNotFound {
                        pos: pos.clone(),
                        block_alias_name: id_tokens[0].clone(),
                    },
                )
            },
        }
    } else if n == 3 {
        assert(tokens[0] == id_tokens@[0]@);
        assert(tokens[1] == id_tokens@[1]@);
        assert(tokens[2] == id_tokens@[2]@);
        let id = qualify(&id_tokens[0], &id_tokens[1], &id_tokens[2]);
        warn_if_private(cons, pos, id, &id_tokens[1], &id_tokens[2], scope)
    } else {
        assert(cons@ + Seq::<BlockParseErrorView>::empty() =~= cons@);
        Err(BlockParseError::InternalError { msg: String::from_str("invalid id expression") })
    }
}

fn warn_if_private(
    cons: &mut Console,
    pos: &CharacterPosition,
    id: String,
    target_block: &String,
    rule_name: &String,
    scope: &Scope,
) -> (r: Result<String, BlockParseError>)
    ensures
        result_view(r) == resolved_as(pos@, id@, target_block@, rule_name@, scope@).value,
        final(cons)@ == old(cons)@ + resolved_as(pos@, id@, target_block@, rule_name@, scope@).warnings,
{
    if is_private_name(rule_name) && !(scope.block_name == *target_block) {
        cons.append_log(
            BlockParseError::AttemptToAccessPrivateItem { pos: pos.clone(), item_id: id.clone() },
        );
        assert(cons@ =~= old(cons)@ + resolved_as(
            pos@,
            id@,
            target_block@,
            rule_name@,
            scope@,
        ).warnings);
    } else {
        assert(cons@ + Seq::<BlockParseErrorView>::empty() =~= cons@);
    }
    Ok(id)
}

} // verus!
