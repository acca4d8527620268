//! Schemas, typed values and rows.
//!
//! A schema is an ordered sequence of named fields; field order is
//! significant and field names are unique within a schema. A row is a
//! fixed-arity tuple of optional scalar values, positionally aligned to
//! the schema; an absent value (null) is legal only where the field is
//! nullable.

use vstd::prelude::*;

verus! {

/// Primitive type tag of a column: 64-bit integer, length-prefixed byte
/// string, or 64-bit millisecond timestamp.
#[derive(Clone, Copy, PartialEq, Eq, Structural, Debug)]
pub enum Ptype {
    Int,
    Str,
    Ts,
}

/// One field of a schema: a name, a primitive type tag and a nullability
/// flag.
#[derive(Debug, PartialEq)]
pub struct Field {
    pub name: String,
    pub ptype: Ptype,
    pub nullable: bool,
}

/// Mathematical image of a [`Field`].
pub struct FieldV {
    pub name: Seq<char>,
    pub ptype: Ptype,
    pub nullable: bool,
}

impl View for Field {
    type V = FieldV;

    open spec fn view(&self) -> FieldV {
        FieldV { name: self.name@, ptype: self.ptype, nullable: self.nullable }
    }
}

/// An ordered sequence of fields. Field order is fixed for the lifetime
/// of a table version.
#[derive(Debug, PartialEq)]
pub struct Schema {
    pub fields: Vec<Field>,
}

impl View for Schema {
    type V = Seq<FieldV>;

    open spec fn view(&self) -> Seq<FieldV> {
        Seq::new(self.fields@.len(), |i: int| self.fields@[i]@)
    }
}

/// Field names are pairwise distinct.
pub open spec fn names_unique(s: Seq<FieldV>) -> bool {
    forall|i: int, j: int| 0 <= i < j < s.len() ==> s[i].name != s[j].name
}

impl Schema {
    /// Well-formedness invariant: names unique within the schema.
    pub open spec fn wf(&self) -> bool {
        names_unique(self@)
    }

    /// Builds a schema, accepting the field list only when its names are
    /// pairwise distinct.
    pub fn new(fields: Vec<Field>) -> (r: Option<Schema>)
        ensures
            match r {
                Some(s) => s.wf() && s@ == Seq::new(fields@.len(), |i: int| fields@[i]@),
                None => !names_unique(Seq::new(fields@.len(), |i: int| fields@[i]@)),
            },
    {
        let n = fields.len();
        let mut i: usize = 0;
        while i < n
            invariant
                n == fields@.len(),
                i <= n,
                forall|a: int, b: int| 0 <= a < b < fields@.len() && a < i ==> fields@[a]@.name != fields@[b]@.name,
            decreases n - i,
        {
            let mut j: usize = i + 1;
            while j < n
                invariant
                    n == fields@.len(),
                    i < j <= n,
                    forall|b: int| i < b < j ==> fields@[i as int]@.name != fields@[b]@.name,
                decreases n - j,
            {
                if fields[i].name == fields[j].name {
                    proof {
                        let sv = Seq::new(fields@.len(), |k: int| fields@[k]@);
                        assert(sv[i as int].name == sv[j as int].name);
                        assert(!names_unique(sv));
                    }
                    return None;
                }
                j += 1;
            }
            i += 1;
        }
        let s = Schema { fields };
        assert(names_unique(s@));
        Some(s)
    }

    /// Number of fields.
    pub fn len(&self) -> (n: usize)
        ensures
            n == self@.len(),
    {
        self.fields.len()
    }
}

/// A scalar value of a cell.
#[derive(Debug, PartialEq)]
pub enum Value {
    /// A 64-bit signed integer.
    Int(i64),
    /// A byte string.
    Str(Vec<u8>),
    /// A timestamp in milliseconds.
    Ts(i64),
}

/// Mathematical image of a [`Value`].
pub enum ValueV {
    Int(i64),
    Str(Seq<u8>),
    Ts(i64),
}

impl View for Value {
    type V = ValueV;

    open spec fn view(&self) -> ValueV {
        match self {
            Value::Int(x) => ValueV::Int(*x),
            Value::Str(b) => ValueV::Str(b@),
            Value::Ts(x) => ValueV::Ts(*x),
        }
    }
}

impl Value {
    /// Structural duplicate.
    pub fn dup(&self) -> (r: Value)
        ensures
            r@ == self@,
    {
        match self {
            Value::Int(x) => Value::Int(*x),
            Value::Str(b) => Value::Str(dup_bytes(b)),
            Value::Ts(x) => Value::Ts(*x),
        }
    }
}

/// Structural duplicate of a byte vector.
pub fn dup_bytes(b: &Vec<u8>) -> (r: Vec<u8>)
    ensures
        r@ == b@,
{
    let mut r: Vec<u8> = Vec::new();
    let mut i: usize = 0;
    while i < b.len()
        invariant
            i <= b@.len(),
            r@ == b@.take(i as int),
        decreases b@.len() - i,
    {
        r.push(b[i]);
        i += 1;
        assert(r@ =~= b@.take(i as int));
    }
    assert(r@ =~= b@);
    r
}

/// The view of one optional cell.
pub open spec fn cell_view(c: Option<Value>) -> Option<ValueV> {
    match c {
        Some(v) => Some(v@),
        None => None,
    }
}

/// A row: one optional value per schema field, positionally aligned.
#[derive(Debug, PartialEq)]
pub struct Row {
    pub cells: Vec<Option<Value>>,
}

impl View for Row {
    type V = Seq<Option<ValueV>>;

    open spec fn view(&self) -> Seq<Option<ValueV>> {
        Seq::new(self.cells@.len(), |i: int| cell_view(self.cells@[i]))
    }
}

/// The view of a sequence of rows.
pub open spec fn rows_view(rows: Seq<Row>) -> Seq<Seq<Option<ValueV>>> {
    Seq::new(rows.len(), |i: int| rows[i]@)
}

/// A present value carries the type the field declares.
pub open spec fn value_matches(t: Ptype, v: ValueV) -> bool {
    match v {
        ValueV::Int(_) => t == Ptype::Int,
        ValueV::Str(_) => t == Ptype::Str,
        ValueV::Ts(_) => t == Ptype::Ts,
    }
}

/// The row has one cell per field and every present cell carries the
/// field's type. Absent cells are allowed everywhere here; nullability is
/// the further condition [`row_conforms`] adds.
pub open spec fn row_shaped(s: Seq<FieldV>, r: Seq<Option<ValueV>>) -> bool {
    &&& r.len() == s.len()
    &&& forall|j: int| 0 <= j < s.len() ==> match #[trigger] r[j] {
        Some(v) => value_matches(s[j].ptype, v),
        None => true,
    }
}

/// Every row is shaped for the schema.
pub open spec fn rows_shaped(s: Seq<FieldV>, rows: Seq<Seq<Option<ValueV>>>) -> bool {
    forall|i: int| 0 <= i < rows.len() ==> row_shaped(s, #[trigger] rows[i])
}

/// The row is shaped and absent only where the field is nullable.
pub open spec fn row_conforms(s: Seq<FieldV>, r: Seq<Option<ValueV>>) -> bool {
    &&& row_shaped(s, r)
    &&& forall|j: int| 0 <= j < s.len() && #[trigger] r[j] is None ==> s[j].nullable
}

/// Every row conforms, and the sizes fit the machine: a row count and
/// every byte-string length must be representable in a `usize`.
pub open spec fn rows_conform(s: Seq<FieldV>, rows: Seq<Seq<Option<ValueV>>>) -> bool {
    &&& forall|i: int| 0 <= i < rows.len() ==> row_conforms(s, #[trigger] rows[i])
    &&& rows.len() <= usize::MAX
    &&& forall|i: int, j: int| 0 <= i < rows.len() && 0 <= j < s.len() ==> match #[trigger] rows[i][j] {
        Some(ValueV::Str(b)) => b.len() <= usize::MAX,
        _ => true,
    }
}

} // verus!
