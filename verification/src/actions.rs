//! The action model of the table log.
//!
//! A committed version's payload is an ordered sequence of actions. An
//! action is one of: a protocol record, a metadata record, the addition
//! of a data file, the removal (tombstoning) of a data file, or a
//! free-form commit-info annotation that never alters queryable state.
//! Actions are immutable once committed.

use vstd::prelude::*;
use crate::schema::{Schema, FieldV};

verus! {

/// Reader/writer protocol versions a client must support to use the table.
#[derive(Clone, Copy, PartialEq, Eq, Structural, Debug)]
pub struct Protocol {
    pub min_reader_version: i32,
    pub min_writer_version: i32,
}

/// Table metadata: identity, the column schema, the partition columns and
/// a free-form configuration map. A later `MetaData` action replaces the
/// record in full, never field by field.
#[derive(Debug, PartialEq)]
pub struct MetaData {
    pub id: String,
    pub name: Option<String>,
    pub description: Option<String>,
    pub schema: Schema,
    pub partition_columns: Vec<String>,
    pub configuration: Vec<(String, String)>,
}

/// Mathematical image of a [`MetaData`].
pub struct MetaDataV {
    pub id: Seq<char>,
    pub name: Option<Seq<char>>,
    pub description: Option<Seq<char>>,
    pub schema: Seq<FieldV>,
    pub partition_columns: Seq<Seq<char>>,
    pub configuration: Seq<(Seq<char>, Seq<char>)>,
}

/// View of a sequence of string pairs.
pub open spec fn pairs_view(s: Seq<(String, String)>) -> Seq<(Seq<char>, Seq<char>)> {
    Seq::new(s.len(), |i: int| (s[i].0@, s[i].1@))
}

/// View of a sequence of strings.
pub open spec fn strings_view(s: Seq<String>) -> Seq<Seq<char>> {
    Seq::new(s.len(), |i: int| s[i]@)
}

/// View of an optional string.
pub open spec fn opt_string_view(s: Option<String>) -> Option<Seq<char>> {
    match s {
        Some(x) => Some(x@),
        None => None,
    }
}

impl View for MetaData {
    type V = MetaDataV;

    open spec fn view(&self) -> MetaDataV {
        MetaDataV {
            id: self.id@,
            name: opt_string_view(self.name),
            description: opt_string_view(self.description),
            schema: self.schema@,
            partition_columns: strings_view(self.partition_columns@),
            configuration: pairs_view(self.configuration@),
        }
    }
}

/// A data file produced by the column writer and referenced by the log:
/// its path, byte size, partition-value mapping, modification timestamp
/// in milliseconds, and whether it contributes new logical rows.
#[derive(Debug, PartialEq)]
pub struct DataFile {
    pub path: String,
    pub size: i64,
    pub partition_values: Vec<(String, String)>,
    pub modification_time: i64,
    pub data_change: bool,
}

/// Mathematical image of a [`DataFile`].
pub struct DataFileV {
    pub path: Seq<char>,
    pub size: i64,
    pub partition_values: Seq<(Seq<char>, Seq<char>)>,
    pub modification_time: i64,
    pub data_change: bool,
}

impl View for DataFile {
    type V = DataFileV;

    open spec fn view(&self) -> DataFileV {
        DataFileV {
            path: self.path@,
            size: self.size,
            partition_values: pairs_view(self.partition_values@),
            modification_time: self.modification_time,
            data_change: self.data_change,
        }
    }
}

/// A retained record that a file was logically removed at a given time.
#[derive(Debug, PartialEq)]
pub struct Tombstone {
    pub path: String,
    pub deletion_timestamp: i64,
}

impl View for Tombstone {
    type V = (Seq<char>, i64);

    open spec fn view(&self) -> (Seq<char>, i64) {
        (self.path@, self.deletion_timestamp)
    }
}

/// One typed entry in a committed version's payload.
#[derive(Debug, PartialEq)]
pub enum Action {
    Protocol(Protocol),
    MetaData(MetaData),
    Add(DataFile),
    Remove(Tombstone),
    /// Free-form key-value annotations for auditability; passed through,
    /// never interpreted.
    CommitInfo(Vec<(String, String)>),
}

/// Mathematical image of an [`Action`].
pub enum ActionV {
    Protocol(Protocol),
    MetaData(MetaDataV),
    Add(DataFileV),
    Remove(Seq<char>, i64),
    CommitInfo(Seq<(Seq<char>, Seq<char>)>),
}

impl View for Action {
    type V = ActionV;

    open spec fn view(&self) -> ActionV {
        match self {
            Action::Protocol(p) => ActionV::Protocol(*p),
            Action::MetaData(m) => ActionV::MetaData(m@),
            Action::Add(f) => ActionV::Add(f@),
            Action::Remove(t) => ActionV::Remove(t.path@, t.deletion_timestamp),
            Action::CommitInfo(ci) => ActionV::CommitInfo(pairs_view(ci@)),
        }
    }
}

/// The view of a sequence of actions.
pub open spec fn actions_view(s: Seq<Action>) -> Seq<ActionV> {
    Seq::new(s.len(), |i: int| s[i]@)
}

/// Structural duplicate of a vector of string pairs.
pub fn dup_pairs(v: &Vec<(String, String)>) -> (r: Vec<(String, String)>)
    ensures
        pairs_view(r@) == pairs_view(v@),
{
    let mut r: Vec<(String, String)> = Vec::new();
    let mut i: usize = 0;
    while i < v.len()
        invariant
            i <= v@.len(),
            r@.len() == i,
            forall|k: int| 0 <= k < i ==> (#[trigger] r@[k]).0@ == v@[k].0@ && r@[k].1@ == v@[k].1@,
        decreases v@.len() - i,
    {
        let p = (v[i].0.clone(), v[i].1.clone());
        r.push(p);
        i += 1;
    }
    assert(pairs_view(r@) =~= pairs_view(v@));
    r
}

/// Structural duplicate of a vector of strings.
pub fn dup_strings(v: &Vec<String>) -> (r: Vec<String>)
    ensures
        strings_view(r@) == strings_view(v@),
{
    let mut r: Vec<String> = Vec::new();
    let mut i: usize = 0;
    while i < v.len()
        invariant
            i <= v@.len(),
            r@.len() == i,
            forall|k: int| 0 <= k < i ==> (#[trigger] r@[k])@ == v@[k]@,
        decreases v@.len() - i,
    {
        r.push(v[i].clone());
        i += 1;
    }
    assert(strings_view(r@) =~= strings_view(v@));
    r
}

/// Structural duplicate of an optional string.
pub fn dup_opt_string(v: &Option<String>) -> (r: Option<String>)
    ensures
        opt_string_view(r) == opt_string_view(*v),
{
    match v {
        Some(s) => Some(s.clone()),
        None => None,
    }
}

impl Schema {
    /// Structural duplicate.
    pub fn dup(&self) -> (r: Schema)
        ensures
            r@ == self@,
    {
        let mut fields: Vec<crate::schema::Field> = Vec::new();
        let mut i: usize = 0;
        while i < self.fields.len()
            invariant
                i <= self.fields@.len(),
                fields@.len() == i,
                forall|k: int| 0 <= k < i ==> (#[trigger] fields@[k])@ == self.fields@[k]@,
            decreases self.fields@.len() - i,
        {
            let f = crate::schema::Field {
                name: self.fields[i].name.clone(),
                ptype: self.fields[i].ptype,
                nullable: self.fields[i].nullable,
            };
            fields.push(f);
            i += 1;
        }
        let r = Schema { fields };
        assert(r@ =~= self@);
        r
    }
}

impl MetaData {
    /// Structural duplicate.
    pub fn dup(&self) -> (r: MetaData)
        ensures
            r@ == self@,
    {
        let r = MetaData {
            id: self.id.clone(),
            name: dup_opt_string(&self.name),
            description: dup_opt_string(&self.description),
            schema: self.schema.dup(),
            partition_columns: dup_strings(&self.partition_columns),
            configuration: dup_pairs(&self.configuration),
        };
        r
    }
}

impl DataFile {
    /// Builds the record for a freshly written data file — path, byte
    /// size and partition values as given, `data_change` set, and the
    /// modification timestamp stamped from the clock.
    pub fn stamped_now(path: String, size: i64, partition_values: Vec<(String, String)>) -> (r:
        DataFile)
        ensures
            r@.path == path@,
            r@.size == size,
            r@.partition_values == pairs_view(partition_values@),
            r@.data_change == true,
    {
        DataFile {
            path,
            size,
            partition_values,
            modification_time: crate::clock::now_millis(),
            data_change: true,
        }
    }

    /// Structural duplicate.
    pub fn dup(&self) -> (r: DataFile)
        ensures
            r@ == self@,
    {
        DataFile {
            path: self.path.clone(),
            size: self.size,
            partition_values: dup_pairs(&self.partition_values),
            modification_time: self.modification_time,
            data_change: self.data_change,
        }
    }
}

impl Tombstone {
    /// Structural duplicate.
    pub fn dup(&self) -> (r: Tombstone)
        ensures
            r@ == self@,
    {
        Tombstone { path: self.path.clone(), deletion_timestamp: self.deletion_timestamp }
    }
}

impl Action {
    /// Structural duplicate.
    pub fn dup(&self) -> (r: Action)
        ensures
            r@ == self@,
    {
        match self {
            Action::Protocol(p) => Action::Protocol(*p),
            Action::MetaData(m) => Action::MetaData(m.dup()),
            Action::Add(f) => Action::Add(f.dup()),
            Action::Remove(t) => Action::Remove(t.dup()),
            Action::CommitInfo(ci) => Action::CommitInfo(dup_pairs(ci)),
        }
    }
}

/// Structural duplicate of a vector of actions.
pub fn dup_actions(v: &Vec<Action>) -> (r: Vec<Action>)
    ensures
        actions_view(r@) == actions_view(v@),
{
    let mut r: Vec<Action> = Vec::new();
    let mut i: usize = 0;
    while i < v.len()
        invariant
            i <= v@.len(),
            r@.len() == i,
            forall|k: int| 0 <= k < i ==> (#[trigger] r@[k])@ == v@[k]@,
        decreases v@.len() - i,
    {
        let a = v[i].dup();
        r.push(a);
        i += 1;
    }
    assert(actions_view(r@) =~= actions_view(v@));
    r
}

} // verus!
