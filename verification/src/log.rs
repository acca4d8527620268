//! The versioned, transactionally committed table log.
//!
//! A log is the append-only sequence of committed version payloads,
//! contiguous from version 0. Committing is optimistic: the caller names
//! the version number it expects to create, and the commit succeeds only
//! when that number is exactly the next free one — otherwise the log is
//! unchanged and the caller observes a conflict, re-reads, and retries.
//! No partial or duplicate version is ever observable.

use vstd::prelude::*;
use crate::actions::{Action, ActionV, actions_view};
use crate::schema::{FieldV, Schema};
use crate::state::{StateV, TableState, apply_actions};
use crate::TableError;

verus! {

/// A validated, ordered action list, serialized into a version payload
/// ready to persist; it carries no version number yet.
#[derive(Debug)]
pub struct PreparedCommit {
    pub actions: Vec<Action>,
}

impl View for PreparedCommit {
    type V = Seq<ActionV>;

    open spec fn view(&self) -> Seq<ActionV> {
        actions_view(self.actions@)
    }
}

/// Number of `Protocol` actions in a payload.
pub open spec fn count_protocol(aa: Seq<ActionV>) -> nat
    decreases aa.len(),
{
    if aa.len() == 0 {
        0
    } else {
        count_protocol(aa.drop_last()) + (if aa.last() is Protocol { 1nat } else { 0nat })
    }
}

/// Number of `MetaData` actions in a payload.
pub open spec fn count_metadata(aa: Seq<ActionV>) -> nat
    decreases aa.len(),
{
    if aa.len() == 0 {
        0
    } else {
        count_metadata(aa.drop_last()) + (if aa.last() is MetaData { 1nat } else { 0nat })
    }
}

/// Nullability of a field may only be loosened: once a schema holds a
/// field as nullable, no later schema may redeclare a field of that
/// name as required.
pub open spec fn nullability_loosened_only(old_s: Seq<FieldV>, new_s: Seq<FieldV>) -> bool {
    forall|a: int, b: int|
        0 <= a < old_s.len() && 0 <= b < new_s.len()
            && (#[trigger] old_s[a]).name == (#[trigger] new_s[b]).name
            ==> (old_s[a].nullable ==> new_s[b].nullable)
}

/// Every `MetaData` action in the list respects the nullability policy
/// against the table's current schema, when the table has one.
pub open spec fn metadata_changes_ok(current: StateV, aa: Seq<ActionV>) -> bool {
    forall|k: int| 0 <= k < aa.len() ==> match #[trigger] aa[k] {
        ActionV::MetaData(m) => match current.metadata {
            Some(cm) => nullability_loosened_only(cm.schema, m.schema),
            None => true,
        },
        _ => true,
    }
}

/// Validity of an action list against the current table state. The
/// commit that creates a table — the commit of version 0 — must declare
/// exactly one `Protocol` and exactly one `MetaData` record. An
/// incremental commit is free to contain any actions — redeclaring
/// `Protocol` or `MetaData` is an intentional change of the records —
/// but a redeclared schema may only loosen nullability, never tighten
/// it.
pub open spec fn valid_action_set(current: StateV, creating: bool, aa: Seq<ActionV>) -> bool {
    &&& (creating ==> count_protocol(aa) == 1 && count_metadata(aa) == 1)
    &&& metadata_changes_ok(current, aa)
}

/// Decides [`nullability_loosened_only`] for two schemas.
pub fn schema_evolution_ok(old_s: &Schema, new_s: &Schema) -> (r: bool)
    ensures
        r == nullability_loosened_only(old_s@, new_s@),
{
    let n = old_s.fields.len();
    let m = new_s.fields.len();
    let mut i: usize = 0;
    while i < n
        invariant
            n == old_s@.len(),
            m == new_s@.len(),
            i <= n,
            forall|a: int, b: int|
                0 <= a < i && 0 <= b < m && (#[trigger] old_s@[a]).name == (#[trigger] new_s@[b]).name
                    ==> (old_s@[a].nullable ==> new_s@[b].nullable),
        decreases n - i,
    {
        if old_s.fields[i].nullable {
            let mut kx: usize = 0;
            while kx < m
                invariant
                    n == old_s@.len(),
                    m == new_s@.len(),
                    i < n,
                    old_s@[i as int].nullable,
                    kx <= m,
                    forall|b: int|
                        0 <= b < kx && old_s@[i as int].name == (#[trigger] new_s@[b]).name
                            ==> new_s@[b].nullable,
                decreases m - kx,
            {
                if old_s.fields[i].name == new_s.fields[kx].name && !new_s.fields[kx].nullable {
                    proof {
                        assert(old_s@[i as int].name == new_s@[kx as int].name);
                        assert(!nullability_loosened_only(old_s@, new_s@));
                    }
                    return false;
                }
                kx += 1;
            }
        }
        i += 1;
    }
    true
}

/// A commit targeting `expected` succeeds exactly when `expected` is the
/// next free version number of the log.
pub open spec fn commit_succeeds(log: Seq<Seq<ActionV>>, expected: int) -> bool {
    expected == log.len()
}

/// The log after a commit attempt: grown by the whole payload when the
/// attempt succeeds, unchanged when it conflicts.
pub open spec fn commit_result(log: Seq<Seq<ActionV>>, payload: Seq<ActionV>, expected: int) -> Seq<
    Seq<ActionV>,
> {
    if commit_succeeds(log, expected) {
        log.push(payload)
    } else {
        log
    }
}

/// Folds whole committed versions into a state, oldest first.
pub open spec fn fold_versions(s: StateV, vs: Seq<Seq<ActionV>>) -> StateV
    decreases vs.len(),
{
    if vs.len() == 0 {
        s
    } else {
        fold_versions(apply_actions(s, vs[0]), vs.drop_first())
    }
}

/// Folding a log extended by one version equals folding the log and then
/// merging that version.
pub proof fn lemma_fold_versions_push(s: StateV, vs: Seq<Seq<ActionV>>, p: Seq<ActionV>)
    ensures
        fold_versions(s, vs.push(p)) == apply_actions(fold_versions(s, vs), p),
    decreases vs.len(),
{
    if vs.len() == 0 {
        assert(vs.push(p)[0] == p);
        assert(vs.push(p).drop_first() =~= Seq::<Seq<ActionV>>::empty());
        assert(fold_versions(apply_actions(s, p), Seq::<Seq<ActionV>>::empty())
            == apply_actions(s, p));
    } else {
        assert(vs.push(p)[0] == vs[0]);
        assert(vs.push(p).drop_first() =~= vs.drop_first().push(p));
        lemma_fold_versions_push(apply_actions(s, vs[0]), vs.drop_first(), p);
    }
}

/// How many versions a `load_state` call replays: all of them, or the
/// versions `0 ..= v` when an explicit `upto` version `v` is given.
pub open spec fn load_target(log_len: int, upto: Option<u64>) -> int {
    match upto {
        None => log_len,
        Some(v) => v + 1,
    }
}

/// The ordered, versioned action history of one table.
///
/// `versions@[v]` is the payload committed as version `v`; versions are
/// contiguous from 0, and a committed payload is immutable.
#[derive(Debug)]
pub struct TableLog {
    pub versions: Vec<PreparedCommit>,
}

impl View for TableLog {
    type V = Seq<Seq<ActionV>>;

    open spec fn view(&self) -> Seq<Seq<ActionV>> {
        Seq::new(self.versions@.len(), |i: int| self.versions@[i]@)
    }
}

impl TableLog {
    /// Creates the table's log storage. The caller reports whether a log
    /// already exists at the storage location; creation over an existing
    /// log is refused.
    pub fn initialize(storage_exists: bool) -> (r: Result<TableLog, TableError>)
        ensures
            match r {
                Ok(log) => !storage_exists && log@ == Seq::<Seq<ActionV>>::empty(),
                Err(e) => storage_exists && e == TableError::AlreadyInitialized,
            },
    {
        if storage_exists {
            Err(TableError::AlreadyInitialized)
        } else {
            let log = TableLog { versions: Vec::new() };
            proof {
                assert(log@ =~= Seq::<Seq<ActionV>>::empty());
            }
            Ok(log)
        }
    }

    /// Number of committed versions; the next free version number.
    pub fn version_count(&self) -> (n: usize)
        ensures
            n == self@.len(),
    {
        self.versions.len()
    }

    /// Validates an action list against the current table state and
    /// turns it into a payload ready to persist, without assigning a
    /// version number. A list that would create the table (no version
    /// committed yet) must hold exactly one `Protocol` and one
    /// `MetaData` action; and a `MetaData` action may only loosen a
    /// field's nullability against the table's current schema, never
    /// tighten it. A list that breaks either rule is rejected with
    /// `InvalidActionSet` before any I/O.
    pub fn prepare_commit(&self, actions: Vec<Action>) -> (r: Result<PreparedCommit, TableError>)
        ensures
            match r {
                Ok(p) => {
                    &&& valid_action_set(
                        fold_versions(StateV::empty(), self@),
                        self@.len() == 0,
                        actions_view(actions@),
                    )
                    &&& p@ == actions_view(actions@)
                },
                Err(e) => {
                    &&& e == TableError::InvalidActionSet
                    &&& !valid_action_set(
                        fold_versions(StateV::empty(), self@),
                        self@.len() == 0,
                        actions_view(actions@),
                    )
                },
            },
    {
        let ghost av = actions_view(actions@);
        let ghost cur = fold_versions(StateV::empty(), self@);
        let state = match self.load_state(None) {
            Ok(st) => st,
            Err(_) => {
                proof {
                    assert(false);
                }
                return Err(TableError::InvalidActionSet);
            },
        };
        proof {
            assert(self@.take(self@.len() as int) =~= self@);
            assert(state@ == cur);
        }

        // The creating commit declares the table: exactly one protocol
        // record and one metadata record.
        if self.versions.len() == 0 {
            let mut np: usize = 0;
            let mut nm: usize = 0;
            let mut k: usize = 0;
            while k < actions.len()
                invariant
                    k <= actions@.len(),
                    av == actions_view(actions@),
                    av.len() == actions@.len(),
                    np == count_protocol(av.take(k as int)),
                    nm == count_metadata(av.take(k as int)),
                    np <= k,
                    nm <= k,
                decreases actions@.len() - k,
            {
                proof {
                    assert(av.take(k as int + 1).drop_last() =~= av.take(k as int));
                    assert(av.take(k as int + 1).last() == av[k as int]);
                    assert(av[k as int] == actions@[k as int]@);
                }
                match &actions[k] {
                    Action::Protocol(_) => {
                        np += 1;
                    },
                    Action::MetaData(_) => {
                        nm += 1;
                    },
                    _ => {},
                }
                k += 1;
            }
            proof {
                assert(av.take(actions@.len() as int) =~= av);
            }
            if !(np == 1 && nm == 1) {
                return Err(TableError::InvalidActionSet);
            }
        }

        // The nullability policy for every redeclared schema.
        let mut k: usize = 0;
        while k < actions.len()
            invariant
                k <= actions@.len(),
                av == actions_view(actions@),
                av.len() == actions@.len(),
                state@ == cur,
                cur == fold_versions(StateV::empty(), self@),
                forall|t: int| 0 <= t < k ==> match #[trigger] av[t] {
                    ActionV::MetaData(m) => match cur.metadata {
                        Some(cm) => nullability_loosened_only(cm.schema, m.schema),
                        None => true,
                    },
                    _ => true,
                },
            decreases actions@.len() - k,
        {
            proof {
                assert(av[k as int] == actions@[k as int]@);
            }
            match &actions[k] {
                Action::MetaData(m) => {
                    match &state.metadata {
                        Some(cm) => {
                            assert(cur.metadata == Some(cm@));
                            if !schema_evolution_ok(&cm.schema, &m.schema) {
                                proof {
                                    assert(av[k as int] is MetaData);
                                    assert(!metadata_changes_ok(cur, av));
                                }
                                return Err(TableError::InvalidActionSet);
                            }
                        },
                        None => {
                            assert(cur.metadata is None);
                        },
                    }
                },
                _ => {},
            }
            k += 1;
        }
        Ok(PreparedCommit { actions })
    }

    /// Atomically attempts to persist the payload as version
    /// `expected_version`. The write is whole-or-nothing: when
    /// `expected_version` is exactly the next free version, the payload
    /// becomes that version, visible to all future readers; when another
    /// writer claimed it first (or the number is not the next free one),
    /// the call fails with `Conflict` and the log is unchanged — the
    /// caller re-reads the current version and retries with the next
    /// number. No version is ever overwritten or silently renumbered.
    pub fn try_commit(&mut self, prepared: PreparedCommit, expected_version: u64) -> (r: Result<
        u64,
        TableError,
    >)
        ensures
            commit_succeeds(old(self)@, expected_version as int) ==> {
                &&& r == Ok::<u64, TableError>(expected_version)
                &&& final(self)@ == old(self)@.push(prepared@)
            },
            !commit_succeeds(old(self)@, expected_version as int) ==> {
                &&& r == Err::<u64, TableError>(TableError::Conflict)
                &&& final(self)@ == old(self)@
            },
            final(self)@ == commit_result(old(self)@, prepared@, expected_version as int),
    {
        if expected_version == self.versions.len() as u64 {
            let ghost pre = self@;
            self.versions.push(prepared);
            proof {
                assert(self@ =~= pre.push(prepared@));
            }
            Ok(expected_version)
        } else {
            Err(TableError::Conflict)
        }
    }

    /// Replays committed versions from 0 up to and including `upto`
    /// (default: the latest), folding each version's actions into a
    /// `TableState` by the merge rule. Asking for a version the
    /// contiguous sequence does not hold fails with `CorruptLog`.
    pub fn load_state(&self, upto: Option<u64>) -> (r: Result<TableState, TableError>)
        ensures
            match r {
                Ok(st) => {
                    &&& load_target(self@.len() as int, upto) <= self@.len()
                    &&& st@ == fold_versions(
                        StateV::empty(),
                        self@.take(load_target(self@.len() as int, upto)),
                    )
                    &&& st.wf()
                },
                Err(e) => {
                    &&& e == TableError::CorruptLog
                    &&& load_target(self@.len() as int, upto) > self@.len()
                },
            },
    {
        let n = self.versions.len();
        let count: usize = match upto {
            None => n,
            Some(v) => {
                if v >= n as u64 {
                    return Err(TableError::CorruptLog);
                }
                (v as usize) + 1
            },
        };
        let mut st = TableState::empty();
        let mut k: usize = 0;
        while k < count
            invariant
                k <= count,
                count <= self@.len(),
                count == load_target(self@.len() as int, upto),
                st.wf(),
                st@ == fold_versions(StateV::empty(), self@.take(k as int)),
            decreases count - k,
        {
            st.merge_version(&self.versions[k].actions);
            proof {
                assert(self@.take(k as int + 1) =~= self@.take(k as int).push(self@[k as int]));
                lemma_fold_versions_push(StateV::empty(), self@.take(k as int), self@[k as int]);
                assert(self@[k as int] == self.versions@[k as int]@);
            }
            k += 1;
        }
        Ok(st)
    }
}

/// Law: loading the state after the two first commits equals the ordered
/// two-step fold of the merge rule — version 0's payload folded into the
/// empty state, then version 1's payload folded into the result.
pub proof fn lemma_load_is_ordered_fold(a1: Seq<ActionV>, a2: Seq<ActionV>)
    ensures
        fold_versions(StateV::empty(), seq![a1, a2])
            == apply_actions(apply_actions(StateV::empty(), a1), a2),
{
    let vs = seq![a1, a2];
    assert(vs.drop_first() =~= seq![a2]);
    assert(seq![a2].drop_first() =~= Seq::<Seq<ActionV>>::empty());
    assert(fold_versions(apply_actions(apply_actions(StateV::empty(), a1), a2),
        Seq::<Seq<ActionV>>::empty())
        == apply_actions(apply_actions(StateV::empty(), a1), a2));
    assert(fold_versions(apply_actions(StateV::empty(), a1), seq![a2])
        == apply_actions(apply_actions(StateV::empty(), a1), a2));
}

/// Law: two commits targeting the same expected version never both
/// succeed. With `expected` the next free version — the state the race
/// presumes — the winning attempt persists its payload whole as exactly
/// version `expected`, leaving every earlier version as it was. The
/// version number is then spent, so the losing attempt conflicts,
/// whatever payload it carries, and leaves the log unchanged by it:
/// nothing is overwritten and nothing is silently renumbered.
pub proof fn lemma_commit_exclusive(
    log: Seq<Seq<ActionV>>,
    winner: Seq<ActionV>,
    loser: Seq<ActionV>,
    expected: int,
)
    requires
        commit_succeeds(log, expected),
    ensures
        commit_result(log, winner, expected) == log.push(winner),
        commit_result(log, winner, expected).len() == expected + 1,
        commit_result(log, winner, expected)[expected] == winner,
        forall|v: int| 0 <= v < log.len()
            ==> #[trigger] commit_result(log, winner, expected)[v] == log[v],
        !commit_succeeds(commit_result(log, winner, expected), expected),
        commit_result(commit_result(log, winner, expected), loser, expected)
            == commit_result(log, winner, expected),
{
}

} // verus!
