//! The block parser: lowers the syntax trees of grammar sources into block
//! maps and assembles the rule catalog from them.

use vstd::prelude::*;
use crate::block::{BlockMap, BlockView};
use crate::catalog::{block_maps_wf, catalog_rules, RuleMap, RuleMapView};
use crate::closure::{catalog_closed, lemma_rule_map_is_closed};
use crate::command::{clone_optional, lower_file, optional_view, FileState};
use crate::error::{BlockParseError, BlockParseErrorView, Console};
use crate::position::{empty_position, CharacterPosition, CharacterPositionView};
use crate::resolve::{recorded, AppearedIds};
use crate::rule::{lemma_views_push, views, RuleView};
use crate::string_map::{has_key, StringMap};
use crate::text::{contains_string, has_string, string_views};
use crate::tree::{SyntaxNodeElementView, SyntaxTree};

verus! {

/// The state that is carried from one grammar source to the next: the
/// start rule that the top-level source has chosen, if it has, and the
/// identifiers that rule bodies have referenced so far.
#[derive(Debug)]
pub struct BlockParser {
    pub start_rule_id: Option<String>,
    pub appeared_block_ids: AppearedIds,
}

/// One grammar source: the alias of its file, which is empty for the
/// top-level file, and its syntax tree.
#[derive(Debug, PartialEq, Eq)]
pub struct FCPEGFile {
    pub file_alias_name: String,
    pub tree: SyntaxTree,
}

/// The view of a grammar source.
pub ghost struct FCPEGFileView {
    pub file_alias_name: Seq<char>,
    pub tree: SyntaxNodeElementView,
}

impl View for FCPEGFile {
    type V = FCPEGFileView;

    open spec fn view(&self) -> FCPEGFileView {
        FCPEGFileView { file_alias_name: self.file_alias_name@, tree: self.tree@ }
    }
}

impl FCPEGFile {
    pub fn new(file_alias_name: String, tree: SyntaxTree) -> (r: Self)
        ensures
            r.file_alias_name == file_alias_name,
            r.tree == tree,
    {
        FCPEGFile { file_alias_name, tree }
    }
}

/// The first alias of the list that stands in it a second time, at the
/// place of its second standing.
pub open spec fn duplicated_alias(aliases: Seq<Seq<char>>) -> Option<Seq<char>>
    decreases aliases.len(),
{
    if aliases.len() == 0 {
        None
    } else {
        match duplicated_alias(aliases.drop_last()) {
            Some(alias) => Some(alias),
            None => if has_string(aliases.drop_last(), aliases.last()) {
                Some(aliases.last())
            } else {
                None
            },
        }
    }
}

proof fn lemma_duplicated_alias_stays(aliases: Seq<Seq<char>>, k: int)
    requires
        0 <= k <= aliases.len(),
        duplicated_alias(aliases.take(k)) is Some,
    ensures
        duplicated_alias(aliases) == duplicated_alias(aliases.take(k)),
    decreases aliases.len() - k,
{
    if k < aliases.len() {
        assert(aliases.take(k + 1).drop_last() =~= aliases.take(k));
        lemma_duplicated_alias_stays(aliases, k + 1);
    } else {
        assert(aliases.take(k) =~= aliases);
    }
}

/// The aliases of a list of files.
pub open spec fn aliases_of(files: Seq<FCPEGFileView>) -> Seq<Seq<char>> {
    Seq::new(files.len(), |i: int| files[i].file_alias_name)
}

/// How far a run over several files has come: the block maps of the files
/// that were lowered without error, the start rule that was chosen, the
/// identifiers that were referenced, the diagnostics that were raised,
/// whether a file was in error, and whether the top-level file has a block
/// named `Main`.
pub ghost struct RunProgress {
    pub block_maps: Seq<Seq<(Seq<char>, BlockView)>>,
    pub start: Option<Seq<char>>,
    pub appeared: Seq<(Seq<char>, CharacterPositionView)>,
    pub logs: Seq<BlockParseErrorView>,
    pub failed: bool,
    pub main_defined: bool,
}

impl RunProgress {
    /// The start of a run.
    pub open spec fn begin() -> RunProgress {
        RunProgress {
            block_maps: Seq::empty(),
            start: None,
            appeared: Seq::empty(),
            logs: Seq::empty(),
            failed: false,
            main_defined: false,
        }
    }
}

/// The run after one more file. The warnings of the file are logged. A
/// file that lowers without error adds its block map and may choose the
/// start rule. The error of a file that does not is logged behind its
/// warnings; the run goes on with the next file and has failed.
pub open spec fn after_file(progress: RunProgress, file: FCPEGFileView) -> RunProgress {
    let lowered = lower_file(file.tree, file.file_alias_name, progress.start);
    match lowered.value {
        Ok(done) => RunProgress {
            block_maps: progress.block_maps.push(done.blocks),
            start: done.start,
            appeared: recorded(progress.appeared, lowered.refs),
            logs: progress.logs + lowered.warnings,
            failed: progress.failed,
            main_defined: progress.main_defined || (file.file_alias_name.len() == 0 && has_key(
                done.blocks,
                "Main"@,
            )),
        },
        Err(error) => RunProgress {
            block_maps: progress.block_maps,
            start: progress.start,
            appeared: recorded(progress.appeared, lowered.refs),
            logs: (progress.logs + lowered.warnings).push(error),
            failed: true,
            main_defined: progress.main_defined,
        },
    }
}

/// The run after the given files, in order.
pub open spec fn after_files(progress: RunProgress, files: Seq<FCPEGFileView>) -> RunProgress
    decreases files.len(),
{
    if files.len() == 0 {
        progress
    } else {
        after_file(after_files(progress, files.drop_last()), files.last())
    }
}

/// The diagnostic for a referenced identifier that the catalog lacks.
pub open spec fn unknown_id(rules: Seq<(Seq<char>, RuleView)>, id: Seq<char>, pos: CharacterPositionView) -> Seq<
    BlockParseErrorView,
> {
    if has_key(rules, id) {
        Seq::empty()
    } else {
        seq![BlockParseErrorView::UnknownRuleID { pos, rule_id: id }]
    }
}

/// The diagnostics for the referenced identifiers that the catalog lacks,
/// in the order of their first reference.
pub open spec fn unknown_ids(
    rules: Seq<(Seq<char>, RuleView)>,
    appeared: Seq<(Seq<char>, CharacterPositionView)>,
) -> Seq<BlockParseErrorView>
    decreases appeared.len(),
{
    if appeared.len() == 0 {
        Seq::empty()
    } else {
        unknown_ids(rules, appeared.drop_last()) + unknown_id(
            rules,
            appeared.last().0,
            appeared.last().1,
        )
    }
}

/// What assembling a catalog gives: the diagnostics it raises, and the
/// catalog where it raises none.
pub ghost struct Assembly {
    pub logs: Seq<BlockParseErrorView>,
    pub catalog: Option<RuleMapView>,
}

/// The catalog of the given block maps, which are those of the files under
/// the given aliases. Without a start rule there is no catalog, and that is
/// the one error. With a start rule, two files under one alias are the one
/// error. Otherwise the start rule and every referenced identifier must
/// stand in the catalog; each that does not is reported, the start rule
/// first, and then there is no catalog either.
pub open spec fn assembled(
    file_alias_names: Seq<Seq<char>>,
    block_maps: Seq<Seq<(Seq<char>, BlockView)>>,
    start: Option<Seq<char>>,
    appeared: Seq<(Seq<char>, CharacterPositionView)>,
) -> Assembly {
    match start {
        None => Assembly {
            logs: seq![BlockParseErrorView::NoStartCommandInMainBlock],
            catalog: None,
        },
        Some(id) => match duplicated_alias(file_alias_names) {
            Some(alias) => Assembly {
                logs: seq![
                    BlockParseErrorView::DuplicatedFileAliasName { file_alias_name: alias },
                ],
                catalog: None,
            },
            None => {
                let rules = catalog_rules(block_maps);
                let logs = unknown_id(rules, id, empty_position()) + unknown_ids(rules, appeared);
                Assembly {
                    logs,
                    catalog: if logs.len() == 0 {
                        Some(RuleMapView { rules, start_rule_id: id })
                    } else {
                        None
                    },
                }
            },
        },
    }
}

/// There is no unknown identifier exactly when every referenced
/// identifier stands in the catalog.
pub proof fn lemma_unknown_ids(
    rules: Seq<(Seq<char>, RuleView)>,
    appeared: Seq<(Seq<char>, CharacterPositionView)>,
)
    ensures
        unknown_ids(rules, appeared).len() == 0 <==> forall|i: int|
            0 <= i < appeared.len() ==> has_key(rules, (#[trigger] appeared[i]).0),
    decreases appeared.len(),
{
    if appeared.len() > 0 {
        lemma_unknown_ids(rules, appeared.drop_last());
        let before = appeared.drop_last();
        if forall|i: int| 0 <= i < appeared.len() ==> has_key(rules, (#[trigger] appeared[i]).0) {
            assert forall|i: int| 0 <= i < before.len() implies has_key(
                rules,
                (#[trigger] before[i]).0,
            ) by {
                assert(before[i] == appeared[i]);
            }
            assert(has_key(rules, appeared[appeared.len() - 1].0));
        }
        if unknown_ids(rules, appeared).len() == 0 {
            assert forall|i: int| 0 <= i < appeared.len() implies has_key(
                rules,
                (#[trigger] appeared[i]).0,
            ) by {
                if i < before.len() {
                    assert(before[i] == appeared[i]);
                }
            }
        }
    }
}

/// No dangling identifiers: with a start rule that stands in the catalog
/// and files under distinct aliases, assembling fails exactly when some
/// referenced identifier does not stand in the catalog.
pub proof fn lemma_no_dangling_ids(
    file_alias_names: Seq<Seq<char>>,
    block_maps: Seq<Seq<(Seq<char>, BlockView)>>,
    start: Seq<char>,
    appeared: Seq<(Seq<char>, CharacterPositionView)>,
)
    requires
        duplicated_alias(file_alias_names) is None,
        has_key(catalog_rules(block_maps), start),
    ensures
        assembled(file_alias_names, block_maps, Some(start), appeared).catalog is None
            <==> exists|i: int|
            0 <= i < appeared.len() && !has_key(catalog_rules(block_maps), (#[trigger] appeared[i]).0),
{
    lemma_unknown_ids(catalog_rules(block_maps), appeared);
}

/// The invariant of the catalog: its start rule and every referenced
/// identifier stand in it.
pub proof fn lemma_catalog_is_closed(
    file_alias_names: Seq<Seq<char>>,
    block_maps: Seq<Seq<(Seq<char>, BlockView)>>,
    start: Option<Seq<char>>,
    appeared: Seq<(Seq<char>, CharacterPositionView)>,
)
    requires
        assembled(file_alias_names, block_maps, start, appeared).catalog is Some,
    ensures
        start is Some,
        has_key(catalog_rules(block_maps), start->0),
        forall|i: int|
            0 <= i < appeared.len() ==> has_key(
                catalog_rules(block_maps),
                (#[trigger] appeared[i]).0,
            ),
{
    lemma_unknown_ids(catalog_rules(block_maps), appeared);
}

/// The diagnostic that is due where the top-level file has no block named
/// `Main`.
pub open spec fn main_block_missing(main_defined: bool) -> Seq<BlockParseErrorView> {
    if main_defined {
        Seq::empty()
    } else {
        seq![BlockParseErrorView::MainBlockNotDefined]
    }
}

/// The rule catalog of the given grammar sources, and the diagnostics of
/// the run. The files are lowered in order, and what they raise is logged.
/// Where a file was in error, the run ends there without a catalog.
/// Otherwise a top-level file without a block named `Main` is reported,
/// and the catalog is assembled from the block maps; what assembling
/// raises is logged behind it. The run has a catalog where assembling gives
/// one and the top-level file has a block named `Main`.
pub open spec fn rule_map_of(files: Seq<FCPEGFileView>) -> Assembly {
    let run = after_files(RunProgress::begin(), files);
    if run.failed {
        Assembly { logs: run.logs, catalog: None }
    } else {
        let assembly = assembled(aliases_of(files), run.block_maps, run.start, run.appeared);
        Assembly {
            logs: run.logs + main_block_missing(run.main_defined) + assembly.logs,
            catalog: if run.main_defined {
                assembly.catalog
            } else {
                None
            },
        }
    }
}

/// A run in which no file was in error and no start rule was chosen has no
/// catalog, and what it logs ends in the one error that says so.
pub proof fn lemma_run_without_start(files: Seq<FCPEGFileView>)
    requires
        !after_files(RunProgress::begin(), files).failed,
        after_files(RunProgress::begin(), files).start is None,
    ensures
        rule_map_of(files).catalog is None,
        rule_map_of(files).logs == (after_files(RunProgress::begin(), files).logs
            + main_block_missing(after_files(RunProgress::begin(), files).main_defined)).push(
            BlockParseErrorView::NoStartCommandInMainBlock,
        ),
{
    let run = after_files(RunProgress::begin(), files);
    let before = run.logs + main_block_missing(run.main_defined);
    assert(before + seq![BlockParseErrorView::NoStartCommandInMainBlock] =~= before.push(
        BlockParseErrorView::NoStartCommandInMainBlock,
    ));
}

impl BlockParser {
    /// The record of referenced identifiers is well formed.
    pub open spec fn wf(&self) -> bool {
        self.appeared_block_ids.wf()
    }

    /// A parser at the start of a run.
    pub fn new() -> (r: Self)
        ensures
            r.wf(),
            r.start_rule_id is None,
            r.appeared_block_ids@ == Seq::<(Seq<char>, CharacterPositionView)>::empty(),
    {
        BlockParser { start_rule_id: None, appeared_block_ids: StringMap::new() }
    }

    /// Lowers the syntax tree of one grammar source into its block map.
    /// Warnings go to the sink; the identifiers that rule bodies reference
    /// are recorded; in the top-level file a start command chooses the
    /// start rule of the run. The parser can go on with the next source,
    /// whether this one was in error or not.
    pub fn parse(&mut self, cons: &mut Console, file_alias_name: String, tree: &SyntaxTree) -> (r:
        Result<BlockMap, BlockParseError>)
        requires
            old(self).wf(),
        ensures
            final(self).wf(),
            final(self).appeared_block_ids@ == recorded(
                old(self).appeared_block_ids@,
                lower_file(tree@, file_alias_name@, optional_view(old(self).start_rule_id)).refs,
            ),
            final(cons)@ == old(cons)@ + lower_file(
                tree@,
                file_alias_name@,
                optional_view(old(self).start_rule_id),
            ).warnings,
            match r {
                Ok(block_map) => {
                    &&& block_map.wf()
                    &&& lower_file(
                        tree@,
                        file_alias_name@,
                        optional_view(old(self).start_rule_id),
                    ).value matches Ok(done)
                    &&& block_map@ == done.blocks
                    &&& optional_view(final(self).start_rule_id) == done.start
                },
                Err(error) => {
                    &&& lower_file(
                        tree@,
                        file_alias_name@,
                        optional_view(old(self).start_rule_id),
                    ).value == Err::<crate::command::FileProgress, BlockParseErrorView>(error@)
                    &&& final(self).start_rule_id == old(self).start_rule_id
                },
            },
    {
        let start_rule_id = clone_optional(&self.start_rule_id);
        match Self::to_block_map(
            file_alias_name,
            start_rule_id,
            &mut self.appeared_block_ids,
            cons,
            tree,
        ) {
            Ok(state) => {
                let FileState { file_alias_name, blocks, start_rule_id } = state;
                self.start_rule_id = start_rule_id;
                Ok(blocks)
            },
            Err(error) => Err(error),
        }
    }

    /// Reports the referenced identifiers that the catalog lacks.
    pub fn report_unknown_ids(cons: &mut Console, rule_map: &RuleMap, appeared: &AppearedIds) -> (r:
        bool)
        requires
            rule_map.wf(),
            appeared.wf(),
        ensures
            final(cons)@ == old(cons)@ + unknown_ids(rule_map@.rules, appeared@),
            r == (unknown_ids(rule_map@.rules, appeared@).len() > 0),
    {
        let ghost all = appeared@;
        let ghost rules = rule_map@.rules;
        let mut found = false;
        let mut i: usize = 0;
        proof {
            assert(all.take(0) =~= Seq::<(Seq<char>, CharacterPositionView)>::empty());
            assert(cons@ + unknown_ids(rules, all.take(0)) =~= cons@);
        }
        while i < appeared.len()
            invariant
                0 <= i <= appeared@.len(),
                rule_map.wf(),
                appeared.wf(),
                all == appeared@,
                rules == rule_map@.rules,
                cons@ == old(cons)@ + unknown_ids(rules, all.take(i as int)),
                found == (unknown_ids(rules, all.take(i as int)).len() > 0),
            decreases appeared@.len() - i,
        {
            proof {
                assert(all.take(i as int + 1).drop_last() =~= all.take(i as int));
                assert(all.take(i as int + 1).last() == all[i as int]);
            }
            let id = appeared.key_at(i);
            let ghost before = unknown_ids(rules, all.take(i as int));
            if !rule_map.contains_key(id) {
                let pos = appeared.value_at(i);
                cons.append_log(
                    BlockParseError::UnknownRuleID { pos: pos.clone(), rule_id: id.clone() },
                );
                found = true;
                proof {
                    assert(cons@ =~= old(cons)@ + (before + unknown_id(rules, id@, pos@)));
                }
            } else {
                proof {
                    assert(before + unknown_id(rules, id@, all[i as int].1) =~= before);
                }
            }
            i = i + 1;
        }
        proof {
            assert(all.take(i as int) =~= all);
        }
        found
    }

    /// The first alias of the list that stands in it a second time.
    pub fn find_duplicated_alias(file_alias_names: &Vec<String>) -> (r: Option<String>)
        ensures
            optional_view(r) == duplicated_alias(string_views(file_alias_names@)),
    {
        let ghost aliases = string_views(file_alias_names@);
        let mut seen: Vec<String> = Vec::new();
        let mut i: usize = 0;
        proof {
            assert(aliases.take(0) =~= Seq::<Seq<char>>::empty());
            assert(string_views(seen@) =~= aliases.take(0));
        }
        while i < file_alias_names.len()
            invariant
                0 <= i <= file_alias_names.len(),
                aliases == string_views(file_alias_names@),
                string_views(seen@) == aliases.take(i as int),
                duplicated_alias(aliases.take(i as int)) is None,
            decreases file_alias_names.len() - i,
        {
            proof {
                assert(aliases.take(i as int + 1).drop_last() =~= aliases.take(i as int));
                assert(aliases.take(i as int + 1).last() == file_alias_names@[i as int]@);
            }
            if contains_string(&seen, &file_alias_names[i]) {
                proof {
                    lemma_duplicated_alias_stays(aliases, i as int + 1);
                }
                return Some(file_alias_names[i].clone());
            }
            seen.push(file_alias_names[i].clone());
            proof {
                assert(string_views(seen@) =~= aliases.take(i as int + 1));
            }
            i = i + 1;
        }
        proof {
            assert(aliases.take(i as int) =~= aliases);
        }
        None
    }

    /// The aliases of the given files, in order.
    pub fn get_file_alias_names(files: &Vec<FCPEGFile>) -> (r: Vec<String>)
        ensures
            string_views(r@) == aliases_of(views(files@)),
    {
        let mut names: Vec<String> = Vec::new();
        let mut i: usize = 0;
        while i < files.len()
            invariant
                0 <= i <= files.len(),
                names@.len() == i,
                forall|j: int| 0 <= j < i ==> names@[j]@ == files@[j].file_alias_name@,
            decreases files.len() - i,
        {
            names.push(files[i].file_alias_name.clone());
            i = i + 1;
        }
        assert(string_views(names@) =~= aliases_of(views(files@)));
        names
    }

    /// Assembles the catalog from the aliases of the files of a run, their
    /// block maps, the start rule that the run has chosen, and the
    /// identifiers that it has referenced.
    pub fn assemble(
        cons: &mut Console,
        file_alias_names: &Vec<String>,
        block_maps: &Vec<BlockMap>,
        start_rule_id: Option<String>,
        appeared: &AppearedIds,
    ) -> (r: Result<RuleMap, ()>)
        requires
            block_maps_wf(block_maps@),
            appeared.wf(),
        ensures
            final(cons)@ == old(cons)@ + assembled(
                string_views(file_alias_names@),
                views(block_maps@),
                optional_view(start_rule_id),
                appeared@,
            ).logs,
            match r {
                Ok(rule_map) => rule_map.wf() && assembled(
                    string_views(file_alias_names@),
                    views(block_maps@),
                    optional_view(start_rule_id),
                    appeared@,
                ).catalog == Some(rule_map@),
                Err(_) => assembled(
                    string_views(file_alias_names@),
                    views(block_maps@),
                    optional_view(start_rule_id),
                    appeared@,
                ).catalog is None,
            },
    {
        let start = match start_rule_id {
            Some(start) => start,
            None => {
                cons.append_log(BlockParseError::NoStartCommandInMainBlock);
                assert(cons@ =~= old(cons)@ + seq![BlockParseErrorView::NoStartCommandInMainBlock]);
                return Err(());
            },
        };
        match Self::find_duplicated_alias(file_alias_names) {
            Some(alias) => {
                cons.append_log(BlockParseError::DuplicatedFileAliasName { file_alias_name: alias });
                assert(cons@ =~= old(cons)@ + seq![
                    BlockParseErrorView::DuplicatedFileAliasName { file_alias_name: alias@ },
                ]);
                return Err(());
            },
            None => {},
        }
        let rule_map = RuleMap::new(block_maps, start);
        let ghost rules = rule_map@.rules;
        let ghost first = unknown_id(rules, rule_map.start_rule_id@, empty_position());
        let mut failed = false;
        if !rule_map.contains_key(&rule_map.start_rule_id) {
            cons.append_log(
                BlockParseError::UnknownRuleID {
                    pos: CharacterPosition::get_empty(),
                    rule_id: rule_map.start_rule_id.clone(),
                },
            );
            failed = true;
            assert(cons@ =~= old(cons)@ + first);
        } else {
            assert(cons@ =~= old(cons)@ + first);
        }
        let unknown = Self::report_unknown_ids(cons, &rule_map, appeared);
        proof {
            assert(cons@ =~= old(cons)@ + (first + unknown_ids(rules, appeared@)));
        }
        if failed || unknown {
            Err(())
        } else {
            Ok(rule_map)
        }
    }

    /// Lowers the given grammar sources and assembles their rule catalog.
    /// Every diagnostic of the run is appended to the sink, in order.
    pub fn get_rule_map(cons: &mut Console, files: &Vec<FCPEGFile>) -> (r: Result<RuleMap, ()>)
        ensures
            final(cons)@ == old(cons)@ + rule_map_of(views(files@)).logs,
            match r {
                Ok(rule_map) => {
                    &&& rule_map.wf()
                    &&& rule_map_of(views(files@)).catalog == Some(rule_map@)
                    &&& catalog_closed(rule_map@)
                },
                Err(_) => rule_map_of(views(files@)).catalog is None,
            },
    {
        proof {
            if rule_map_of(views(files@)).catalog is Some {
                lemma_rule_map_is_closed(views(files@));
            }
        }
        let ghost all = views(files@);
        let ghost aliases = aliases_of(all);
        let file_alias_names = Self::get_file_alias_names(files);
        let mut parser = BlockParser::new();
        let mut block_maps: Vec<BlockMap> = Vec::new();
        let mut failed = false;
        let mut main_defined = false;
        let mut k: usize = 0;
        let main_name = String::from_str("Main");
        proof {
            assert(all.take(0) =~= Seq::<FCPEGFileView>::empty());
            assert(views(block_maps@) =~= Seq::<Seq<(Seq<char>, BlockView)>>::empty());
            assert(cons@ + RunProgress::begin().logs =~= cons@);
        }
        while k < files.len()
            invariant
                0 <= k <= files.len(),
                all == views(files@),
                parser.wf(),
                block_maps_wf(block_maps@),
                main_name@ == "Main"@,
                after_files(RunProgress::begin(), all.take(k as int)) == (RunProgress {
                    block_maps: views(block_maps@),
                    start: optional_view(parser.start_rule_id),
                    appeared: parser.appeared_block_ids@,
                    logs: after_files(RunProgress::begin(), all.take(k as int)).logs,
                    failed,
                    main_defined,
                }),
                cons@ == old(cons)@ + after_files(RunProgress::begin(), all.take(k as int)).logs,
            decreases files.len() - k,
        {
            proof {
                assert(all.take(k as int + 1).drop_last() =~= all.take(k as int));
                assert(all.take(k as int + 1).last() == files@[k as int]@);
            }
            let ghost before = after_files(RunProgress::begin(), all.take(k as int));
            let ghost lowered = lower_file(
                files@[k as int].tree@,
                files@[k as int].file_alias_name@,
                before.start,
            );
            let file = &files[k];
            match parser.parse(cons, file.file_alias_name.clone(), &file.tree) {
                Ok(block_map) => {
                    if file.file_alias_name.as_str().unicode_len() == 0 && block_map.contains_key(
                        &main_name,
                    ) {
                        main_defined = true;
                    }
                    proof {
                        lemma_views_push(block_maps@, block_map);
                        assert(cons@ =~= old(cons)@ + (before.logs + lowered.warnings));
                    }
                    block_maps.push(block_map);
                },
                Err(error) => {
                    cons.append_log(error);
                    failed = true;
                    proof {
                        assert(cons@ =~= old(cons)@ + (before.logs + lowered.warnings).push(
                            error@,
                        ));
                    }
                },
            }
            k = k + 1;
        }
        proof {
            assert(all.take(k as int) =~= all);
        }
        let ghost run = after_files(RunProgress::begin(), all);
        if failed {
            return Err(());
        }
        if !main_defined {
            cons.append_log(BlockParseError::MainBlockNotDefined);
        }
        proof {
            assert(cons@ =~= old(cons)@ + (run.logs + main_block_missing(main_defined)));
        }
        let BlockParser { start_rule_id, appeared_block_ids } = parser;
        let ghost assembly = assembled(aliases, run.block_maps, run.start, run.appeared);
        let r = Self::assemble(
            cons,
            &file_alias_names,
            &block_maps,
            start_rule_id,
            &appeared_block_ids,
        );
        proof {
            assert(cons@ =~= old(cons)@ + (run.logs + main_block_missing(main_defined)
                + assembly.logs));
        }
        if main_defined {
            r
        } else {
            Err(())
        }
    }
}

} // verus!
