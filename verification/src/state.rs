//! The derived table state and the fold that builds it.
//!
//! `TableState` aggregates, over a prefix of committed versions: the
//! latest protocol record, the latest metadata record, the set of
//! currently live data files keyed by path, and the tombstones of
//! removed files. It is initialized empty and updated by folding each
//! newly committed version's actions in list order — the merge rule
//! [`apply_action`] — never out of order.

use vstd::prelude::*;
use crate::actions::{Action, ActionV, DataFile, DataFileV, MetaData, MetaDataV, Protocol, Tombstone};

verus! {

/// Mathematical image of a [`TableState`]: live files and tombstones as
/// maps keyed by path.
pub struct StateV {
    pub protocol: Option<Protocol>,
    pub metadata: Option<MetaDataV>,
    pub files: Map<Seq<char>, DataFileV>,
    pub tombstones: Map<Seq<char>, i64>,
}

impl StateV {
    /// The state before any version has been folded in.
    pub open spec fn empty() -> StateV {
        StateV {
            protocol: None,
            metadata: None,
            files: Map::empty(),
            tombstones: Map::empty(),
        }
    }
}

/// The merge rule, one action at a time, in payload list order:
/// * `Protocol` and `MetaData` replace the current record in full;
/// * `Add` inserts the file into the live set keyed by path — re-adding
///   an existing path updates that file's record;
/// * `Remove` deletes the path from the live set (a no-op when the path
///   is not live) and records a tombstone, idempotently;
/// * `CommitInfo` never alters queryable state.
pub open spec fn apply_action(s: StateV, a: ActionV) -> StateV {
    match a {
        ActionV::Protocol(p) => StateV { protocol: Some(p), ..s },
        ActionV::MetaData(m) => StateV { metadata: Some(m), ..s },
        ActionV::Add(f) => StateV { files: s.files.insert(f.path, f), ..s },
        ActionV::Remove(p, t) => StateV {
            files: s.files.remove(p),
            tombstones: s.tombstones.insert(p, t),
            ..s
        },
        ActionV::CommitInfo(_) => s,
    }
}

/// Folds a whole version payload into the state, in list order.
pub open spec fn apply_actions(s: StateV, aa: Seq<ActionV>) -> StateV
    decreases aa.len(),
{
    if aa.len() == 0 {
        s
    } else {
        apply_actions(apply_action(s, aa[0]), aa.drop_first())
    }
}

/// Folding a payload extended by one action equals folding the payload
/// and then applying that action.
pub proof fn lemma_apply_actions_push(s: StateV, bb: Seq<ActionV>, a: ActionV)
    ensures
        apply_actions(s, bb.push(a)) == apply_action(apply_actions(s, bb), a),
    decreases bb.len(),
{
    if bb.len() == 0 {
        assert(bb.push(a)[0] == a);
        assert(bb.push(a).drop_first() =~= Seq::<ActionV>::empty());
        assert(apply_actions(apply_action(s, a), Seq::<ActionV>::empty())
            == apply_action(s, a));
    } else {
        assert(bb.push(a)[0] == bb[0]);
        assert(bb.push(a).drop_first() =~= bb.drop_first().push(a));
        lemma_apply_actions_push(apply_action(s, bb[0]), bb.drop_first(), a);
    }
}

/// Law: an `Add` supersedes a prior `Remove` of the same path. After a
/// `Remove` of a path and then — however much later in the fold — an
/// `Add` of a file at that path, the path is live again and carries the
/// added file's record, while the tombstone left by the `Remove` never
/// resurrects on its own: only another `Remove` can end the new life.
pub proof fn lemma_add_supersedes_remove(s: StateV, del_time: i64, f: DataFileV)
    ensures
        apply_action(apply_action(s, ActionV::Remove(f.path, del_time)), ActionV::Add(f))
            .files.dom().contains(f.path),
        apply_action(apply_action(s, ActionV::Remove(f.path, del_time)), ActionV::Add(f))
            .files[f.path] == f,
{
}

/// Law: an `Add` makes its path live with exactly its record, whatever
/// the state was before — in particular after any earlier `Remove`.
pub proof fn lemma_add_makes_live(s: StateV, f: DataFileV)
    ensures
        apply_action(s, ActionV::Add(f)).files.dom().contains(f.path),
        apply_action(s, ActionV::Add(f)).files[f.path] == f,
{
}

/// The live-file map described by a vector of files: later entries win.
pub open spec fn files_map(fs: Seq<DataFile>) -> Map<Seq<char>, DataFileV>
    decreases fs.len(),
{
    if fs.len() == 0 {
        Map::empty()
    } else {
        files_map(fs.drop_last()).insert(fs.last().path@, fs.last()@)
    }
}

/// The tombstone map described by a vector of tombstones.
pub open spec fn tomb_map(ts: Seq<Tombstone>) -> Map<Seq<char>, i64>
    decreases ts.len(),
{
    if ts.len() == 0 {
        Map::empty()
    } else {
        tomb_map(ts.drop_last()).insert(ts.last().path@, ts.last().deletion_timestamp)
    }
}

/// File paths are pairwise distinct.
pub open spec fn file_paths_unique(fs: Seq<DataFile>) -> bool {
    forall|i: int, j: int| 0 <= i < j < fs.len() ==> fs[i].path@ != fs[j].path@
}

/// Tombstone paths are pairwise distinct.
pub open spec fn tomb_paths_unique(ts: Seq<Tombstone>) -> bool {
    forall|i: int, j: int| 0 <= i < j < ts.len() ==> ts[i].path@ != ts[j].path@
}

/// A path is in the live-file map exactly when some vector entry has it.
pub proof fn lemma_files_map_domain(fs: Seq<DataFile>)
    ensures
        forall|p: Seq<char>| #[trigger] files_map(fs).dom().contains(p)
            <==> exists|i: int| 0 <= i < fs.len() && fs[i].path@ == p,
    decreases fs.len(),
{
    if fs.len() > 0 {
        lemma_files_map_domain(fs.drop_last());
        assert forall|p: Seq<char>| #[trigger] files_map(fs).dom().contains(p)
            implies exists|i: int| 0 <= i < fs.len() && fs[i].path@ == p by {
            if p == fs.last().path@ {
                assert(fs[fs.len() - 1].path@ == p);
            } else {
                assert(files_map(fs.drop_last()).dom().contains(p));
                let i = choose|i: int| 0 <= i < fs.drop_last().len() && fs.drop_last()[i].path@ == p;
                assert(fs[i].path@ == p);
            }
        }
        assert forall|p: Seq<char>| (exists|i: int| 0 <= i < fs.len() && fs[i].path@ == p)
            implies #[trigger] files_map(fs).dom().contains(p) by {
            let i = choose|i: int| 0 <= i < fs.len() && fs[i].path@ == p;
            if i < fs.len() - 1 {
                assert(fs.drop_last()[i].path@ == p);
                assert(files_map(fs.drop_last()).dom().contains(p));
            } else {
                assert(p == fs.last().path@);
            }
        }
    }
}

/// Removing the entry at `i` removes exactly its path from the map.
pub proof fn lemma_files_map_remove_at(fs: Seq<DataFile>, i: int)
    requires
        file_paths_unique(fs),
        0 <= i < fs.len(),
    ensures
        files_map(fs.remove(i)) == files_map(fs).remove(fs[i].path@),
    decreases fs.len(),
{
    let p = fs[i].path@;
    if i == fs.len() - 1 {
        assert(fs.remove(i) =~= fs.drop_last());
        lemma_files_map_domain(fs.drop_last());
        assert(!files_map(fs.drop_last()).dom().contains(p));
        assert(files_map(fs.drop_last()).insert(p, fs.last()@).remove(p)
            =~= files_map(fs.drop_last()));
    } else {
        let g = fs.remove(i);
        assert(g.last() == fs.last());
        assert(g.drop_last() =~= fs.drop_last().remove(i));
        assert(fs.drop_last()[i] == fs[i]);
        lemma_files_map_remove_at(fs.drop_last(), i);
        assert(fs.last().path@ != p);
        assert(files_map(fs.drop_last()).remove(p).insert(fs.last().path@, fs.last()@)
            =~= files_map(fs.drop_last()).insert(fs.last().path@, fs.last()@).remove(p));
    }
}

/// A path is in the tombstone map exactly when some vector entry has it.
pub proof fn lemma_tomb_map_domain(ts: Seq<Tombstone>)
    ensures
        forall|p: Seq<char>| #[trigger] tomb_map(ts).dom().contains(p)
            <==> exists|i: int| 0 <= i < ts.len() && ts[i].path@ == p,
    decreases ts.len(),
{
    if ts.len() > 0 {
        lemma_tomb_map_domain(ts.drop_last());
        assert forall|p: Seq<char>| #[trigger] tomb_map(ts).dom().contains(p)
            implies exists|i: int| 0 <= i < ts.len() && ts[i].path@ == p by {
            if p == ts.last().path@ {
                assert(ts[ts.len() - 1].path@ == p);
            } else {
                assert(tomb_map(ts.drop_last()).dom().contains(p));
                let i = choose|i: int| 0 <= i < ts.drop_last().len() && ts.drop_last()[i].path@ == p;
                assert(ts[i].path@ == p);
            }
        }
        assert forall|p: Seq<char>| (exists|i: int| 0 <= i < ts.len() && ts[i].path@ == p)
            implies #[trigger] tomb_map(ts).dom().contains(p) by {
            let i = choose|i: int| 0 <= i < ts.len() && ts[i].path@ == p;
            if i < ts.len() - 1 {
                assert(ts.drop_last()[i].path@ == p);
                assert(tomb_map(ts.drop_last()).dom().contains(p));
            } else {
                assert(p == ts.last().path@);
            }
        }
    }
}

/// Removing the entry at `i` removes exactly its path from the map.
pub proof fn lemma_tomb_map_remove_at(ts: Seq<Tombstone>, i: int)
    requires
        tomb_paths_unique(ts),
        0 <= i < ts.len(),
    ensures
        tomb_map(ts.remove(i)) == tomb_map(ts).remove(ts[i].path@),
    decreases ts.len(),
{
    let p = ts[i].path@;
    if i == ts.len() - 1 {
        assert(ts.remove(i) =~= ts.drop_last());
        lemma_tomb_map_domain(ts.drop_last());
        assert(!tomb_map(ts.drop_last()).dom().contains(p));
        assert(tomb_map(ts.drop_last()).insert(p, ts.last().deletion_timestamp).remove(p)
            =~= tomb_map(ts.drop_last()));
    } else {
        let g = ts.remove(i);
        assert(g.last() == ts.last());
        assert(g.drop_last() =~= ts.drop_last().remove(i));
        assert(ts.drop_last()[i] == ts[i]);
        lemma_tomb_map_remove_at(ts.drop_last(), i);
        assert(ts.last().path@ != p);
        assert(tomb_map(ts.drop_last()).remove(p).insert(ts.last().path@, ts.last().deletion_timestamp)
            =~= tomb_map(ts.drop_last()).insert(ts.last().path@, ts.last().deletion_timestamp).remove(p));
    }
}

/// The derived, mutable aggregate of a table: latest metadata and
/// protocol, the live files, and the tombstones retained for removed
/// files.
#[derive(Debug, PartialEq)]
pub struct TableState {
    pub protocol: Option<Protocol>,
    pub metadata: Option<MetaData>,
    pub files: Vec<DataFile>,
    pub tombstones: Vec<Tombstone>,
}

impl View for TableState {
    type V = StateV;

    open spec fn view(&self) -> StateV {
        StateV {
            protocol: self.protocol,
            metadata: match self.metadata {
                Some(m) => Some(m@),
                None => None,
            },
            files: files_map(self.files@),
            tombstones: tomb_map(self.tombstones@),
        }
    }
}

/// Finds the entry whose path equals `path`, if any.
fn find_file(files: &Vec<DataFile>, path: &String) -> (r: Option<usize>)
    ensures
        match r {
            Some(i) => i < files@.len() && files@[i as int].path@ == path@,
            None => forall|i: int| 0 <= i < files@.len() ==> (#[trigger] files@[i]).path@ != path@,
        },
{
    let mut i: usize = 0;
    while i < files.len()
        invariant
            i <= files@.len(),
            forall|k: int| 0 <= k < i ==> (#[trigger] files@[k]).path@ != path@,
        decreases files@.len() - i,
    {
        if files[i].path == *path {
            return Some(i);
        }
        i += 1;
    }
    None
}

/// Finds the tombstone whose path equals `path`, if any.
fn find_tomb(ts: &Vec<Tombstone>, path: &String) -> (r: Option<usize>)
    ensures
        match r {
            Some(i) => i < ts@.len() && ts@[i as int].path@ == path@,
            None => forall|i: int| 0 <= i < ts@.len() ==> (#[trigger] ts@[i]).path@ != path@,
        },
{
    let mut i: usize = 0;
    while i < ts.len()
        invariant
            i <= ts@.len(),
            forall|k: int| 0 <= k < i ==> (#[trigger] ts@[k]).path@ != path@,
        decreases ts@.len() - i,
    {
        if ts[i].path == *path {
            return Some(i);
        }
        i += 1;
    }
    None
}

impl TableState {
    /// Well-formedness: the file and tombstone vectors are keyed by path.
    pub open spec fn wf(&self) -> bool {
        file_paths_unique(self.files@) && tomb_paths_unique(self.tombstones@)
    }

    /// The state of a table before any version is committed.
    pub fn empty() -> (s: TableState)
        ensures
            s@ == StateV::empty(),
            s.wf(),
    {
        let s = TableState {
            protocol: None,
            metadata: None,
            files: Vec::new(),
            tombstones: Vec::new(),
        };
        s
    }

    /// Deletes `path` from the live files, if present. The live-file map
    /// loses exactly that key.
    fn drop_live(&mut self, path: &String)
        requires
            old(self).wf(),
        ensures
            final(self).wf(),
            files_map(final(self).files@) == files_map(old(self).files@).remove(path@),
            final(self).tombstones == old(self).tombstones,
            final(self).protocol == old(self).protocol,
            final(self).metadata == old(self).metadata,
            forall|i: int| 0 <= i < final(self).files@.len() ==> (#[trigger] final(self).files@[i]).path@ != path@,
    {
        proof {
            lemma_files_map_domain(self.files@);
        }
        match find_file(&self.files, path) {
            Some(i) => {
                proof {
                    lemma_files_map_remove_at(self.files@, i as int);
                }
                self.files.remove(i);
            },
            None => {
                proof {
                    assert(!files_map(self.files@).dom().contains(path@));
                    assert(files_map(self.files@).remove(path@) =~= files_map(self.files@));
                }
            },
        }
        proof {
            lemma_files_map_domain(self.files@);
            if exists|i: int| 0 <= i < self.files@.len() && (#[trigger] self.files@[i]).path@ == path@ {
                assert(files_map(self.files@).dom().contains(path@));
                assert(!files_map(old(self).files@).remove(path@).dom().contains(path@));
                assert(false);
            }
        }
    }

    /// Deletes `path` from the tombstones, if present.
    fn drop_tomb(&mut self, path: &String)
        requires
            old(self).wf(),
        ensures
            final(self).wf(),
            tomb_map(final(self).tombstones@) == tomb_map(old(self).tombstones@).remove(path@),
            final(self).files == old(self).files,
            final(self).protocol == old(self).protocol,
            final(self).metadata == old(self).metadata,
            forall|i: int| 0 <= i < final(self).tombstones@.len() ==> (#[trigger] final(self).tombstones@[i]).path@ != path@,
    {
        proof {
            lemma_tomb_map_domain(self.tombstones@);
        }
        match find_tomb(&self.tombstones, path) {
            Some(i) => {
                proof {
                    lemma_tomb_map_remove_at(self.tombstones@, i as int);
                }
                self.tombstones.remove(i);
            },
            None => {
                proof {
                    assert(!tomb_map(self.tombstones@).dom().contains(path@));
                    assert(tomb_map(self.tombstones@).remove(path@) =~= tomb_map(self.tombstones@));
                }
            },
        }
        proof {
            lemma_tomb_map_domain(self.tombstones@);
            if exists|i: int| 0 <= i < self.tombstones@.len() && (#[trigger] self.tombstones@[i]).path@ == path@ {
                assert(tomb_map(self.tombstones@).dom().contains(path@));
                assert(!tomb_map(old(self).tombstones@).remove(path@).dom().contains(path@));
                assert(false);
            }
        }
    }

    /// Applies one action to the state by the merge rule.
    pub fn apply(&mut self, a: &Action)
        requires
            old(self).wf(),
        ensures
            final(self).wf(),
            final(self)@ == apply_action(old(self)@, a@),
    {
        match a {
            Action::Protocol(p) => {
                self.protocol = Some(*p);
            },
            Action::MetaData(m) => {
                self.metadata = Some(m.dup());
            },
            Action::Add(f) => {
                self.drop_live(&f.path);
                let ghost pre = self.files@;
                self.files.push(f.dup());
                proof {
                    assert(self.files@.drop_last() =~= pre);
                    assert(files_map(self.files@)
                        =~= files_map(old(self).files@).remove(f.path@).insert(f.path@, f@));
                    assert(files_map(old(self).files@).remove(f.path@).insert(f.path@, f@)
                        =~= files_map(old(self).files@).insert(f.path@, f@));
                }
            },
            Action::Remove(t) => {
                self.drop_live(&t.path);
                self.drop_tomb(&t.path);
                let ghost pre = self.tombstones@;
                self.tombstones.push(t.dup());
                proof {
                    assert(self.tombstones@.drop_last() =~= pre);
                    assert(tomb_map(self.tombstones@)
                        =~= tomb_map(old(self).tombstones@).remove(t.path@)
                            .insert(t.path@, t.deletion_timestamp));
                    assert(tomb_map(old(self).tombstones@).remove(t.path@)
                        .insert(t.path@, t.deletion_timestamp)
                        =~= tomb_map(old(self).tombstones@).insert(t.path@, t.deletion_timestamp));
                }
            },
            Action::CommitInfo(_) => {},
        }
    }

    /// Folds a whole version payload into the state, in list order.
    pub fn merge_version(&mut self, actions: &Vec<Action>)
        requires
            old(self).wf(),
        ensures
            final(self).wf(),
            final(self)@ == apply_actions(old(self)@, crate::actions::actions_view(actions@)),
    {
        let ghost av = crate::actions::actions_view(actions@);
        let mut k: usize = 0;
        while k < actions.len()
            invariant
                old(self).wf(),
                self.wf(),
                k <= actions@.len(),
                av == crate::actions::actions_view(actions@),
                av.len() == actions@.len(),
                self@ == apply_actions(old(self)@, av.take(k as int)),
            decreases actions@.len() - k,
        {
            self.apply(&actions[k]);
            proof {
                assert(av.take(k as int + 1) =~= av.take(k as int).push(av[k as int]));
                lemma_apply_actions_push(old(self)@, av.take(k as int), av[k as int]);
                assert(av[k as int] == actions@[k as int]@);
            }
            k += 1;
        }
        proof {
            assert(av.take(actions@.len() as int) =~= av);
        }
    }
}

} // verus!
