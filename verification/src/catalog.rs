//! The rule catalog: the rules of all files by fully-qualified identifier,
//! and the identifier of the start rule.

use vstd::prelude::*;
use crate::block::{BlockCommand, BlockCommandView, BlockMap, BlockView};
use crate::rule::{views, Rule, RuleView};
use crate::string_map::{has_key, lemma_put_lookup, lookup, put, StringMap};

verus! {

/// The rule catalog.
#[derive(Debug, PartialEq, Eq)]
pub struct RuleMap {
    pub rule_map: StringMap<Rule>,
    pub start_rule_id: String,
}

/// The view of a catalog: its rules by identifier, in the order in which
/// their identifiers were first defined, and its start rule.
pub ghost struct RuleMapView {
    pub rules: Seq<(Seq<char>, RuleView)>,
    pub start_rule_id: Seq<char>,
}

impl View for RuleMap {
    type V = RuleMapView;

    open spec fn view(&self) -> RuleMapView {
        RuleMapView { rules: self.rule_map@, start_rule_id: self.start_rule_id@ }
    }
}

/// The rules after one more command: a definition puts its rule under the
/// identifier of the rule; no other command changes the rules.
pub open spec fn rules_after_command(
    rules: Seq<(Seq<char>, RuleView)>,
    cmd: BlockCommandView,
) -> Seq<(Seq<char>, RuleView)> {
    match cmd {
        BlockCommandView::Define { pos, rule } => put(rules, rule.id, rule),
        _ => rules,
    }
}

/// The rules after the commands of a block, in order.
pub open spec fn rules_after_commands(
    rules: Seq<(Seq<char>, RuleView)>,
    cmds: Seq<BlockCommandView>,
) -> Seq<(Seq<char>, RuleView)>
    decreases cmds.len(),
{
    if cmds.len() == 0 {
        rules
    } else {
        rules_after_command(rules_after_commands(rules, cmds.drop_last()), cmds.last())
    }
}

/// The rules after the blocks of a file, in order.
pub open spec fn rules_after_blocks(
    rules: Seq<(Seq<char>, RuleView)>,
    blocks: Seq<(Seq<char>, BlockView)>,
) -> Seq<(Seq<char>, RuleView)>
    decreases blocks.len(),
{
    if blocks.len() == 0 {
        rules
    } else {
        rules_after_commands(rules_after_blocks(rules, blocks.drop_last()), blocks.last().1.cmds)
    }
}

/// The rules after the block maps of a run, in order.
pub open spec fn rules_after_files(
    rules: Seq<(Seq<char>, RuleView)>,
    files: Seq<Seq<(Seq<char>, BlockView)>>,
) -> Seq<(Seq<char>, RuleView)>
    decreases files.len(),
{
    if files.len() == 0 {
        rules
    } else {
        rules_after_blocks(rules_after_files(rules, files.drop_last()), files.last())
    }
}

/// The rules of a catalog that is made of the given block maps.
pub open spec fn catalog_rules(files: Seq<Seq<(Seq<char>, BlockView)>>) -> Seq<
    (Seq<char>, RuleView),
> {
    rules_after_files(Seq::empty(), files)
}

/// A rule that stands in the rules stays in them, whatever commands follow.
pub proof fn lemma_commands_keep_keys(
    rules: Seq<(Seq<char>, RuleView)>,
    cmds: Seq<BlockCommandView>,
    id: Seq<char>,
)
    requires
        has_key(rules, id),
    ensures
        has_key(rules_after_commands(rules, cmds), id),
    decreases cmds.len(),
{
    if cmds.len() > 0 {
        lemma_commands_keep_keys(rules, cmds.drop_last(), id);
        match cmds.last() {
            BlockCommandView::Define { pos, rule } => {
                lemma_put_lookup(rules_after_commands(rules, cmds.drop_last()), rule.id, rule, id);
            },
            _ => {},
        }
    }
}

/// A rule that stands in the rules stays in them, whatever blocks follow.
pub proof fn lemma_blocks_keep_keys(
    rules: Seq<(Seq<char>, RuleView)>,
    blocks: Seq<(Seq<char>, BlockView)>,
    id: Seq<char>,
)
    requires
        has_key(rules, id),
    ensures
        has_key(rules_after_blocks(rules, blocks), id),
    decreases blocks.len(),
{
    if blocks.len() > 0 {
        lemma_blocks_keep_keys(rules, blocks.drop_last(), id);
        lemma_commands_keep_keys(
            rules_after_blocks(rules, blocks.drop_last()),
            blocks.last().1.cmds,
            id,
        );
    }
}

/// A rule that stands in the rules stays in them, whatever files follow.
pub proof fn lemma_files_keep_keys(
    rules: Seq<(Seq<char>, RuleView)>,
    files: Seq<Seq<(Seq<char>, BlockView)>>,
    id: Seq<char>,
)
    requires
        has_key(rules, id),
    ensures
        has_key(rules_after_files(rules, files), id),
    decreases files.len(),
{
    if files.len() > 0 {
        lemma_files_keep_keys(rules, files.drop_last(), id);
        lemma_blocks_keep_keys(rules_after_files(rules, files.drop_last()), files.last(), id);
    }
}

/// A rule that one of the commands defines stands in the rules after them,
/// under its identifier.
pub proof fn lemma_commands_define(
    rules: Seq<(Seq<char>, RuleView)>,
    cmds: Seq<BlockCommandView>,
    k: int,
)
    requires
        0 <= k < cmds.len(),
        cmds[k] is Define,
    ensures
        has_key(rules_after_commands(rules, cmds), cmds[k]->Define_rule.id),
    decreases cmds.len(),
{
    let id = cmds[k]->Define_rule.id;
    let before = rules_after_commands(rules, cmds.drop_last());
    if k == cmds.len() - 1 {
        lemma_put_lookup(before, id, cmds[k]->Define_rule, id);
    } else {
        lemma_commands_define(rules, cmds.drop_last(), k);
        match cmds.last() {
            BlockCommandView::Define { pos, rule } => {
                lemma_put_lookup(before, rule.id, rule, id);
            },
            _ => {},
        }
    }
}

/// Round-trip naming: every rule that a command of a block of a file
/// defines stands in the catalog under its identifier.
pub proof fn lemma_catalog_holds_defined_rules(
    files: Seq<Seq<(Seq<char>, BlockView)>>,
    f: int,
    b: int,
    k: int,
)
    requires
        0 <= f < files.len(),
        0 <= b < files[f].len(),
        0 <= k < files[f][b].1.cmds.len(),
        files[f][b].1.cmds[k] is Define,
    ensures
        has_key(catalog_rules(files), files[f][b].1.cmds[k]->Define_rule.id),
{
    let id = files[f][b].1.cmds[k]->Define_rule.id;
    lemma_files_define(Seq::empty(), files, f, b, k);
}

proof fn lemma_blocks_define(
    rules: Seq<(Seq<char>, RuleView)>,
    blocks: Seq<(Seq<char>, BlockView)>,
    b: int,
    k: int,
)
    requires
        0 <= b < blocks.len(),
        0 <= k < blocks[b].1.cmds.len(),
        blocks[b].1.cmds[k] is Define,
    ensures
        has_key(rules_after_blocks(rules, blocks), blocks[b].1.cmds[k]->Define_rule.id),
    decreases blocks.len(),
{
    let id = blocks[b].1.cmds[k]->Define_rule.id;
    let before = rules_after_blocks(rules, blocks.drop_last());
    if b == blocks.len() - 1 {
        lemma_commands_define(before, blocks.last().1.cmds, k);
    } else {
        lemma_blocks_define(rules, blocks.drop_last(), b, k);
        lemma_commands_keep_keys(before, blocks.last().1.cmds, id);
    }
}

proof fn lemma_files_define(
    rules: Seq<(Seq<char>, RuleView)>,
    files: Seq<Seq<(Seq<char>, BlockView)>>,
    f: int,
    b: int,
    k: int,
)
    requires
        0 <= f < files.len(),
        0 <= b < files[f].len(),
        0 <= k < files[f][b].1.cmds.len(),
        files[f][b].1.cmds[k] is Define,
    ensures
        has_key(rules_after_files(rules, files), files[f][b].1.cmds[k]->Define_rule.id),
    decreases files.len(),
{
    let id = files[f][b].1.cmds[k]->Define_rule.id;
    let before = rules_after_files(rules, files.drop_last());
    if f == files.len() - 1 {
        lemma_blocks_define(before, files.last(), b, k);
    } else {
        lemma_files_define(rules, files.drop_last(), f, b, k);
        lemma_blocks_keep_keys(before, files.last(), id);
    }
}

/// Every block map of the list is well formed.
pub open spec fn block_maps_wf(block_maps: Seq<BlockMap>) -> bool {
    forall|i: int| 0 <= i < block_maps.len() ==> (#[trigger] block_maps[i]).wf()
}

fn add_commands(rule_map: &mut StringMap<Rule>, cmds: &Vec<BlockCommand>)
    requires
        old(rule_map).wf(),
    ensures
        final(rule_map).wf(),
        final(rule_map)@ == rules_after_commands(old(rule_map)@, views(cmds@)),
{
    let ghost all = views(cmds@);
    let mut i: usize = 0;
    proof {
        assert(all.take(0) =~= Seq::<BlockCommandView>::empty());
    }
    while i < cmds.len()
        invariant
            0 <= i <= cmds.len(),
            rule_map.wf(),
            all == views(cmds@),
            rule_map@ == rules_after_commands(old(rule_map)@, all.take(i as int)),
        decreases cmds.len() - i,
    {
        proof {
            assert(all.take(i as int + 1).drop_last() =~= all.take(i as int));
            assert(all.take(i as int + 1).last() == cmds@[i as int]@);
        }
        match &cmds[i] {
            BlockCommand::Define { pos, rule } => {
                rule_map.insert(rule.id.clone(), rule.clone());
            },
            _ => {},
        }
        i = i + 1;
    }
    proof {
        assert(all.take(i as int) =~= all);
    }
}

fn add_blocks(rule_map: &mut StringMap<Rule>, block_map: &BlockMap)
    requires
        old(rule_map).wf(),
        block_map.wf(),
    ensures
        final(rule_map).wf(),
        final(rule_map)@ == rules_after_blocks(old(rule_map)@, block_map@),
{
    let ghost all = block_map@;
    let mut i: usize = 0;
    proof {
        assert(all.take(0) =~= Seq::<(Seq<char>, BlockView)>::empty());
    }
    while i < block_map.len()
        invariant
            0 <= i <= block_map@.len(),
            rule_map.wf(),
            block_map.wf(),
            all == block_map@,
            rule_map@ == rules_after_blocks(old(rule_map)@, all.take(i as int)),
        decreases block_map@.len() - i,
    {
        proof {
            assert(all.take(i as int + 1).drop_last() =~= all.take(i as int));
            assert(all.take(i as int + 1).last() == all[i as int]);
        }
        let block = block_map.value_at(i);
        add_commands(rule_map, &block.cmds);
        i = i + 1;
    }
    proof {
        assert(all.take(i as int) =~= all);
    }
}

impl RuleMap {
    /// No identifier stands twice in the catalog.
    pub open spec fn wf(&self) -> bool {
        self.rule_map.wf()
    }

    /// The catalog of the rules that the given block maps define, with the
    /// given start rule. Where two definitions share an identifier, the
    /// later one stands.
    pub fn new(block_maps: &Vec<BlockMap>, start_rule_id: String) -> (r: Self)
        requires
            block_maps_wf(block_maps@),
        ensures
            r.wf(),
            r@.rules == catalog_rules(views(block_maps@)),
            r@.start_rule_id == start_rule_id@,
    {
        let ghost all = views(block_maps@);
        let mut rule_map: StringMap<Rule> = StringMap::new();
        let mut i: usize = 0;
        proof {
            assert(all.take(0) =~= Seq::<Seq<(Seq<char>, BlockView)>>::empty());
        }
        while i < block_maps.len()
            invariant
                0 <= i <= block_maps.len(),
                rule_map.wf(),
                block_maps_wf(block_maps@),
                all == views(block_maps@),
                rule_map@ == rules_after_files(Seq::empty(), all.take(i as int)),
            decreases block_maps.len() - i,
        {
            proof {
                assert(all.take(i as int + 1).drop_last() =~= all.take(i as int));
                assert(all.take(i as int + 1).last() == block_maps@[i as int]@);
            }
            add_blocks(&mut rule_map, &block_maps[i]);
            i = i + 1;
        }
        proof {
            assert(all.take(i as int) =~= all);
        }
        RuleMap { rule_map, start_rule_id }
    }

    /// Whether a rule stands under `id`.
    pub fn contains_key(&self, id: &String) -> (r: bool)
        requires
            self.wf(),
        ensures
            r == has_key(self@.rules, id@),
    {
        self.rule_map.contains_key(id)
    }

    /// The rule under `id`.
    pub fn get_rule(&self, id: &String) -> (r: Option<&Rule>)
        requires
            self.wf(),
        ensures
            match r {
                Some(rule) => lookup(self@.rules, id@) == Some(rule@),
                None => lookup(self@.rules, id@) is None && !has_key(self@.rules, id@),
            },
    {
        self.rule_map.get(id)
    }
}

} // verus!
