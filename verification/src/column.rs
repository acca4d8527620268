//! The columnar file writer and its byte-level contract.
//!
//! [`write_columns`] converts an in-memory sequence of rows into a
//! column-oriented byte image matching a given schema: a row count,
//! then, for each field position in schema order, the whole column. A
//! column's values are encoded with a type-appropriate representation —
//! fixed-width 64-bit integers, length-prefixed byte strings, 64-bit
//! millisecond timestamps. A nullable column is preceded by a parallel
//! definition-level sequence, one byte per row (1 = present, 0 =
//! absent); required columns carry no definition levels and a null
//! there fails the whole write with `NullInRequiredField`, producing no
//! bytes.
//!
//! [`read_columns`] reads such an image back; [`lemma_encode_injective`]
//! states that an image determines the rows, which together with the two
//! contracts gives the write/read round trip.

use vstd::prelude::*;
use vstd::bytes::{
    lemma_auto_spec_u64_to_from_le_bytes, spec_u64_to_le_bytes,
    u64_from_le_bytes, u64_to_le_bytes,
};
use vstd::slice::slice_subrange;
use crate::schema::{
    cell_view, dup_bytes, row_conforms, row_shaped, rows_conform, rows_shaped, rows_view, value_matches,
    FieldV, Ptype, Row, Schema, Value, ValueV,
};
use crate::TableError;

verus! {

/// Encoding of one present value: integers and timestamps as 8 bytes
/// little-endian, byte strings with an 8-byte length prefix.
pub open spec fn enc_value(v: ValueV) -> Seq<u8> {
    match v {
        ValueV::Int(x) => spec_u64_to_le_bytes(x as u64),
        ValueV::Ts(x) => spec_u64_to_le_bytes(x as u64),
        ValueV::Str(b) => spec_u64_to_le_bytes(b.len() as u64) + b,
    }
}

/// Definition levels of column `j`: one byte per row, 1 for a present
/// value, 0 for an absent one.
pub open spec fn def_levels(rows: Seq<Seq<Option<ValueV>>>, j: int) -> Seq<u8> {
    Seq::new(rows.len(), |i: int| if rows[i][j] is Some { 1u8 } else { 0u8 })
}

/// Value bytes of column `j`, rows `i` onward; absent cells contribute
/// nothing.
pub open spec fn enc_col_values(rows: Seq<Seq<Option<ValueV>>>, i: int, j: int) -> Seq<u8>
    decreases rows.len() - i,
    when 0 <= i <= rows.len()
{
    if i >= rows.len() {
        Seq::<u8>::empty()
    } else {
        (match rows[i][j] {
            Some(v) => enc_value(v),
            None => Seq::<u8>::empty(),
        }) + enc_col_values(rows, i + 1, j)
    }
}

/// One whole column: definition levels first when the field is
/// nullable, then the value bytes.
pub open spec fn enc_col(f: FieldV, rows: Seq<Seq<Option<ValueV>>>, j: int) -> Seq<u8> {
    if f.nullable {
        def_levels(rows, j) + enc_col_values(rows, 0, j)
    } else {
        enc_col_values(rows, 0, j)
    }
}

/// The columns from position `j` onward, in schema order.
pub open spec fn enc_cols(s: Seq<FieldV>, rows: Seq<Seq<Option<ValueV>>>, j: int) -> Seq<u8>
    decreases s.len() - j,
    when 0 <= j <= s.len()
{
    if j >= s.len() {
        Seq::<u8>::empty()
    } else {
        enc_col(s[j], rows, j) + enc_cols(s, rows, j + 1)
    }
}

/// The whole column-major image: the row count, then every column.
pub open spec fn spec_encode(s: Seq<FieldV>, rows: Seq<Seq<Option<ValueV>>>) -> Seq<u8> {
    spec_u64_to_le_bytes(rows.len() as u64) + enc_cols(s, rows, 0)
}

/// No row leaves a required field null.
pub open spec fn no_forbidden_nulls(s: Seq<FieldV>, rows: Seq<Seq<Option<ValueV>>>) -> bool {
    forall|i: int, j: int|
        0 <= i < rows.len() && 0 <= j < s.len() && !s[j].nullable ==> #[trigger] rows[i][j] is Some
}

/// Serializes `rows` against `schema` into a column-major byte image
/// and reports the logical row count. Fails, producing nothing, exactly
/// when some row has a null in a required field.
pub fn write_columns(schema: &Schema, rows: &Vec<Row>) -> (r: Result<(Vec<u8>, usize), TableError>)
    requires
        rows_shaped(schema@, rows_view(rows@)),
    ensures
        match r {
            Ok((bytes, n)) => {
                &&& no_forbidden_nulls(schema@, rows_view(rows@))
                &&& n == rows@.len()
                &&& bytes@ == spec_encode(schema@, rows_view(rows@))
            },
            Err(e) => {
                &&& e == TableError::NullInRequiredField
                &&& !no_forbidden_nulls(schema@, rows_view(rows@))
            },
        },
{
    let ghost sv = schema@;
    let ghost rv = rows_view(rows@);
    let nrows = rows.len();
    let ncols = schema.fields.len();

    // Validation pass: fail fast, before any byte is produced.
    let mut j: usize = 0;
    while j < ncols
        invariant
            j <= ncols,
            ncols == sv.len(),
            nrows == rv.len(),
            sv == schema@,
            rv == rows_view(rows@),
            rows_shaped(sv, rv),
            forall|ii: int, jj: int|
                0 <= ii < rv.len() && 0 <= jj < j && !sv[jj].nullable ==> #[trigger] rv[ii][jj] is Some,
        decreases ncols - j,
    {
        if !schema.fields[j].nullable {
            let mut i: usize = 0;
            while i < nrows
                invariant
                    i <= nrows,
                    j < ncols,
                    ncols == sv.len(),
                    nrows == rv.len(),
                    sv == schema@,
                    rv == rows_view(rows@),
                    rows_shaped(sv, rv),
                    !sv[j as int].nullable,
                    forall|ii: int| 0 <= ii < i ==> #[trigger] rv[ii][j as int] is Some,
                decreases nrows - i,
            {
                assert(row_shaped(sv, rv[i as int]));
                assert(rv[i as int].len() == sv.len());
                assert(rows@[i as int].cells@.len() == sv.len());
                match &rows[i].cells[j] {
                    Option::None => {
                        proof {
                            assert(rv[i as int][j as int] is None);
                            assert(!no_forbidden_nulls(sv, rv));
                        }
                        return Err(TableError::NullInRequiredField);
                    },
                    Option::Some(_) => {
                        proof {
                            assert(rv[i as int][j as int] is Some);
                        }
                    },
                }
                i += 1;
            }
        }
        j += 1;
    }
    assert(no_forbidden_nulls(sv, rv));

    // Encoding pass: the row count, then column by column in schema
    // order, buffering each whole column before the next.
    proof {
        lemma_auto_spec_u64_to_from_le_bytes();
    }
    let mut out: Vec<u8> = u64_to_le_bytes(nrows as u64);
    assert(out@ =~= spec_u64_to_le_bytes(rv.len() as u64));
    let mut j: usize = 0;
    while j < ncols
        invariant
            j <= ncols,
            ncols == sv.len(),
            nrows == rv.len(),
            sv == schema@,
            rv == rows_view(rows@),
            rows_shaped(sv, rv),
            no_forbidden_nulls(sv, rv),
            out@ + enc_cols(sv, rv, j as int) == spec_encode(sv, rv),
        decreases ncols - j,
    {
        let nullable = schema.fields[j].nullable;
        let ghost col_start = out@;
        assert(enc_cols(sv, rv, j as int)
            == enc_col(sv[j as int], rv, j as int) + enc_cols(sv, rv, j as int + 1));

        if nullable {
            // Definition levels: one byte per row.
            let mut i: usize = 0;
            while i < nrows
                invariant
                    i <= nrows,
                    j < ncols,
                    ncols == sv.len(),
                    nrows == rv.len(),
                    sv == schema@,
                    rv == rows_view(rows@),
                    rows_shaped(sv, rv),
                    out@ == col_start + def_levels(rv, j as int).take(i as int),
                decreases nrows - i,
            {
                assert(rv[i as int].len() == sv.len());
                assert(rows@[i as int].cells@.len() == sv.len());
                let level: u8 = match &rows[i].cells[j] {
                    Option::Some(_) => 1,
                    Option::None => 0,
                };
                out.push(level);
                proof {
                    assert(level == def_levels(rv, j as int)[i as int]);
                    assert(out@ =~= col_start + def_levels(rv, j as int).take(i as int + 1));
                }
                i += 1;
            }
            assert(def_levels(rv, j as int).take(nrows as int) =~= def_levels(rv, j as int));
        }
        let ghost vals_start = out@;
        assert(nullable ==> vals_start == col_start + def_levels(rv, j as int));
        assert(!nullable ==> vals_start == col_start);

        // Value bytes of the column, present cells only.
        let mut i: usize = 0;
        while i < nrows
            invariant
                i <= nrows,
                j < ncols,
                ncols == sv.len(),
                nrows == rv.len(),
                sv == schema@,
                rv == rows_view(rows@),
                rows_shaped(sv, rv),
                no_forbidden_nulls(sv, rv),
                nullable == sv[j as int].nullable,
                out@ + enc_col_values(rv, i as int, j as int)
                    == vals_start + enc_col_values(rv, 0, j as int),
            decreases nrows - i,
        {
            assert(rv[i as int].len() == sv.len());
            assert(rows@[i as int].cells@.len() == sv.len());
            assert(enc_col_values(rv, i as int, j as int)
                == (match rv[i as int][j as int] {
                    Some(v) => enc_value(v),
                    None => Seq::<u8>::empty(),
                }) + enc_col_values(rv, i as int + 1, j as int));
            let ghost before = out@;
            match &rows[i].cells[j] {
                Option::Some(v) => {
                    assert(rv[i as int][j as int] == Some(v@));
                    match v {
                        Value::Int(x) => {
                            let mut b = u64_to_le_bytes(*x as u64);
                            out.append(&mut b);
                            assert(out@ == before + enc_value(v@));
                        },
                        Value::Ts(x) => {
                            let mut b = u64_to_le_bytes(*x as u64);
                            out.append(&mut b);
                            assert(out@ == before + enc_value(v@));
                        },
                        Value::Str(bs) => {
                            let mut lb = u64_to_le_bytes(bs.len() as u64);
                            out.append(&mut lb);
                            let mut db = dup_bytes(bs);
                            out.append(&mut db);
                            assert(out@ =~= before + enc_value(v@));
                        },
                    }
                },
                Option::None => {
                    assert(rv[i as int][j as int] is None);
                },
            }
            proof {
                assert(out@ + enc_col_values(rv, i as int + 1, j as int)
                    =~= vals_start + enc_col_values(rv, 0, j as int));
            }
            i += 1;
        }
        proof {
            assert(out@ == vals_start + enc_col_values(rv, 0, j as int));
            assert(out@ =~= col_start + enc_col(sv[j as int], rv, j as int));
            assert(out@ + enc_cols(sv, rv, j as int + 1) =~= spec_encode(sv, rv));
        }
        j += 1;
    }
    proof {
        assert(enc_cols(sv, rv, sv.len() as int) == Seq::<u8>::empty());
        assert(out@ + Seq::<u8>::empty() =~= out@);
    }
    Ok((out, nrows))
}

/// Splitting a suffix: when the bytes from `p` on are `a` followed by
/// `t`, then `a` sits exactly at `p .. p + |a|` and `t` is the bytes
/// from `p + |a|` on.
proof fn lemma_parse_prefix(s: Seq<u8>, p: int, a: Seq<u8>, t: Seq<u8>)
    requires
        0 <= p <= s.len(),
        s.skip(p) == a + t,
    ensures
        p + a.len() + t.len() == s.len(),
        s.subrange(p, p + a.len()) == a,
        s.skip(p + a.len()) == t,
{
    assert(s.skip(p).len() == s.len() - p);
    assert((a + t).len() == a.len() + t.len());
    assert forall|k: int| 0 <= k < a.len() implies s.subrange(p, p + a.len())[k] == a[k] by {
        assert(s.skip(p)[k] == s[p + k]);
        assert((a + t)[k] == a[k]);
        assert(s.subrange(p, p + a.len())[k] == s[p + k]);
    }
    assert(s.subrange(p, p + a.len()) =~= a);
    assert forall|k: int| 0 <= k < t.len() implies s.skip(p + a.len())[k] == t[k] by {
        assert(s.skip(p)[a.len() + k] == s[p + a.len() + k]);
        assert((a + t)[a.len() + k] == t[k]);
        assert(s.skip(p + a.len())[k] == s[p + a.len() + k]);
    }
    assert(s.skip(p + a.len()) =~= t);
}

/// Reads a column-major image written by [`write_columns`] back into
/// rows. The input must be a well-formed image of some conforming row
/// sequence for `schema`; the rows returned conform and have exactly
/// `bytes` as their image — by [`lemma_encode_injective`] they are the
/// rows the image was written from.
pub fn read_columns(schema: &Schema, bytes: &Vec<u8>) -> (out: Vec<Row>)
    requires
        exists|rv: Seq<Seq<Option<ValueV>>>|
            rows_conform(schema@, rv) && bytes@ == spec_encode(schema@, rv),
    ensures
        rows_conform(schema@, rows_view(out@)),
        bytes@ == spec_encode(schema@, rows_view(out@)),
{
    let ghost sv = schema@;
    let ghost rv = choose|rv: Seq<Seq<Option<ValueV>>>|
        rows_conform(sv, rv) && bytes@ == spec_encode(sv, rv);
    proof {
        lemma_auto_spec_u64_to_from_le_bytes();
    }
    let blen = bytes.len();
    assert(blen == bytes@.len());
    let ncols = schema.fields.len();

    // The row count.
    assert(bytes@.len() >= 8);
    let head = slice_subrange(bytes.as_slice(), 0, 8);
    let n64 = u64_from_le_bytes(head);
    proof {
        assert(bytes@.subrange(0, 8) =~= spec_u64_to_le_bytes(rv.len() as u64));
        assert(n64 == rv.len() as u64);
        assert(rv.len() <= usize::MAX);
    }
    let n = n64 as usize;
    assert(n == rv.len());

    let mut pos: usize = 8;
    assert(bytes@.skip(pos as int) =~= enc_cols(sv, rv, 0));

    // One buffer per column, filled column by column.
    let mut cols: Vec<Vec<Option<Value>>> = Vec::new();
    let mut j: usize = 0;
    while j < ncols
        invariant
            j <= ncols,
            ncols == sv.len(),
            sv == schema@,
            rows_conform(sv, rv),
            bytes@.len() <= usize::MAX,
            n == rv.len(),
            pos <= bytes@.len(),
            bytes@.skip(pos as int) == enc_cols(sv, rv, j as int),
            cols@.len() == j,
            forall|jj: int| 0 <= jj < j ==> (#[trigger] cols@[jj])@.len() == n,
            forall|jj: int, i: int| 0 <= jj < j && 0 <= i < n
                ==> cell_view(#[trigger] cols@[jj]@[i]) == rv[i][jj],
        decreases ncols - j,
    {
        let nullable = schema.fields[j].nullable;
        let ptype = schema.fields[j].ptype;
        assert(sv[j as int].nullable == nullable && sv[j as int].ptype == ptype);
        assert(enc_cols(sv, rv, j as int)
            == enc_col(sv[j as int], rv, j as int) + enc_cols(sv, rv, j as int + 1));
        let ghost rest = enc_cols(sv, rv, j as int + 1);

        let mut levels: Vec<u8> = Vec::new();
        if nullable {
            // The definition levels: one byte per row.
            proof {
                assert(bytes@.skip(pos as int)
                    =~= def_levels(rv, j as int) + (enc_col_values(rv, 0, j as int) + rest));
                lemma_parse_prefix(
                    bytes@,
                    pos as int,
                    def_levels(rv, j as int),
                    enc_col_values(rv, 0, j as int) + rest,
                );
                assert(def_levels(rv, j as int).len() == n);
            }
            assert(pos + n <= bytes@.len());
            let mut i: usize = 0;
            while i < n
                invariant
                    i <= n,
                    n == rv.len(),
                    pos + n <= bytes@.len(),
                    bytes@.len() <= usize::MAX,
                    bytes@.skip(pos as int)
                        == def_levels(rv, j as int) + (enc_col_values(rv, 0, j as int) + rest),
                    levels@.len() == i,
                    forall|k: int| 0 <= k < i
                        ==> levels@[k] == def_levels(rv, j as int)[k],
                decreases n - i,
            {
                let byte = bytes[pos + i];
                proof {
                    assert(bytes@.skip(pos as int)[i as int] == bytes@[pos + i]);
                    assert((def_levels(rv, j as int) + (enc_col_values(rv, 0, j as int) + rest))[
                        i as int] == def_levels(rv, j as int)[i as int]);
                }
                levels.push(byte);
                i += 1;
            }
            proof {
                lemma_parse_prefix(
                    bytes@,
                    pos as int,
                    def_levels(rv, j as int),
                    enc_col_values(rv, 0, j as int) + rest,
                );
            }
            pos = pos + n;
            assert(bytes@.skip(pos as int) == enc_col_values(rv, 0, j as int) + rest);
        } else {
            assert(bytes@.skip(pos as int)
                =~= enc_col_values(rv, 0, j as int) + rest);
        }

        // The value bytes, present cells only.
        let mut col: Vec<Option<Value>> = Vec::new();
        let mut i: usize = 0;
        while i < n
            invariant
                i <= n,
                n == rv.len(),
                j < ncols,
                ncols == sv.len(),
                sv == schema@,
                rows_conform(sv, rv),
                bytes@.len() <= usize::MAX,
                pos <= bytes@.len(),
                nullable == sv[j as int].nullable,
                ptype == sv[j as int].ptype,
                bytes@.skip(pos as int) == enc_col_values(rv, i as int, j as int) + rest,
                col@.len() == i,
                forall|k: int| 0 <= k < i ==> cell_view(#[trigger] col@[k]) == rv[k][j as int],
                nullable ==> levels@.len() == n
                    && forall|k: int| 0 <= k < n ==> levels@[k] == def_levels(rv, j as int)[k],
            decreases n - i,
        {
            proof {
                lemma_auto_spec_u64_to_from_le_bytes();
            }
            assert(row_conforms(sv, rv[i as int]));
            let present = if nullable {
                let lv = levels[i];
                proof {
                    assert(levels@[i as int] == def_levels(rv, j as int)[i as int]);
                }
                lv == 1
            } else {
                assert(rv[i as int][j as int] is Some);
                true
            };
            assert(present <==> rv[i as int][j as int] is Some);
            if present {
                let ghost v = rv[i as int][j as int]->0;
                assert(enc_col_values(rv, i as int, j as int)
                    == enc_value(v) + enc_col_values(rv, i as int + 1, j as int));
                let ghost vtail = enc_col_values(rv, i as int + 1, j as int) + rest;
                assert(bytes@.skip(pos as int) =~= enc_value(v) + vtail);
                assert(value_matches(ptype, v));
                match ptype {
                    Ptype::Int => {
                        let ghost x0 = v->Int_0;
                        proof {
                            assert(enc_value(v) == spec_u64_to_le_bytes(x0 as u64));
                            lemma_parse_prefix(
                                bytes@,
                                pos as int,
                                spec_u64_to_le_bytes(x0 as u64),
                                vtail,
                            );
                        }
                        assert(pos + 8 <= bytes@.len());
                        let s8 = slice_subrange(bytes.as_slice(), pos, pos + 8);
                        let y = u64_from_le_bytes(s8);
                        proof {
                            assert(y == x0 as u64);
                            lemma_i64_cast_round(x0);
                        }
                        let xv = y as i64;
                        assert(xv == x0);
                        col.push(Some(Value::Int(xv)));
                        pos = pos + 8;
                        assert(bytes@.skip(pos as int) == vtail);
                    },
                    Ptype::Ts => {
                        let ghost x0 = v->Ts_0;
                        proof {
                            assert(enc_value(v) == spec_u64_to_le_bytes(x0 as u64));
                            lemma_parse_prefix(
                                bytes@,
                                pos as int,
                                spec_u64_to_le_bytes(x0 as u64),
                                vtail,
                            );
                        }
                        assert(pos + 8 <= bytes@.len());
                        let s8 = slice_subrange(bytes.as_slice(), pos, pos + 8);
                        let y = u64_from_le_bytes(s8);
                        proof {
                            assert(y == x0 as u64);
                            lemma_i64_cast_round(x0);
                        }
                        let xv = y as i64;
                        assert(xv == x0);
                        col.push(Some(Value::Ts(xv)));
                        pos = pos + 8;
                        assert(bytes@.skip(pos as int) == vtail);
                    },
                    Ptype::Str => {
                        let ghost sb = v->Str_0;
                        proof {
                            assert(enc_value(v) == spec_u64_to_le_bytes(sb.len() as u64) + sb);
                            assert(bytes@.skip(pos as int)
                                =~= spec_u64_to_le_bytes(sb.len() as u64) + (sb + vtail));
                            lemma_parse_prefix(
                                bytes@,
                                pos as int,
                                spec_u64_to_le_bytes(sb.len() as u64),
                                sb + vtail,
                            );
                            assert(sb.len() <= usize::MAX);
                        }
                        assert(pos + 8 <= bytes@.len());
                        let s8 = slice_subrange(bytes.as_slice(), pos, pos + 8);
                        let y = u64_from_le_bytes(s8);
                        assert(y == sb.len() as u64);
                        let slen = y as usize;
                        assert(slen == sb.len());
                        pos = pos + 8;
                        proof {
                            lemma_parse_prefix(bytes@, pos as int, sb, vtail);
                        }
                        assert(pos + slen <= bytes@.len());
                        let sl = slice_subrange(bytes.as_slice(), pos, pos + slen);
                        assert(sl@ == sb);
                        let vb = vstd::slice::slice_to_vec(sl);
                        col.push(Some(Value::Str(vb)));
                        pos = pos + slen;
                        assert(bytes@.skip(pos as int) == vtail);
                    },
                }
            } else {
                proof {
                    assert(enc_col_values(rv, i as int, j as int)
                        =~= enc_col_values(rv, i as int + 1, j as int));
                }
                col.push(None);
            }
            i += 1;
        }
        proof {
            assert(enc_col_values(rv, n as int, j as int) == Seq::<u8>::empty());
            assert(bytes@.skip(pos as int) =~= rest);
        }
        cols.push(col);
        j += 1;
    }

    // Rebuild the rows from the column buffers.
    let mut out: Vec<Row> = Vec::new();
    let mut i: usize = 0;
    while i < n
        invariant
            i <= n,
            n == rv.len(),
            ncols == sv.len(),
            rows_conform(sv, rv),
            cols@.len() == ncols,
            forall|jj: int| 0 <= jj < ncols ==> (#[trigger] cols@[jj])@.len() == n,
            forall|jj: int, k: int| 0 <= jj < ncols && 0 <= k < n
                ==> cell_view(#[trigger] cols@[jj]@[k]) == rv[k][jj],
            out@.len() == i,
            forall|k: int| 0 <= k < i ==> (#[trigger] out@[k])@ == rv[k],
        decreases n - i,
    {
        let mut cells: Vec<Option<Value>> = Vec::new();
        let mut j2: usize = 0;
        while j2 < ncols
            invariant
                j2 <= ncols,
                i < n,
                n == rv.len(),
                ncols == sv.len(),
                cols@.len() == ncols,
                forall|jj: int| 0 <= jj < ncols ==> (#[trigger] cols@[jj])@.len() == n,
                forall|jj: int, k: int| 0 <= jj < ncols && 0 <= k < n
                    ==> cell_view(#[trigger] cols@[jj]@[k]) == rv[k][jj],
                cells@.len() == j2,
                forall|k: int| 0 <= k < j2 ==> cell_view(#[trigger] cells@[k]) == rv[i as int][k],
            decreases ncols - j2,
        {
            let c: Option<Value> = match &cols[j2][i] {
                Option::Some(v) => Some(v.dup()),
                Option::None => None,
            };
            assert(cell_view(c) == rv[i as int][j2 as int]);
            cells.push(c);
            j2 += 1;
        }
        let row = Row { cells };
        proof {
            assert(row_conforms(sv, rv[i as int]));
            assert(rv[i as int].len() == sv.len());
            assert(row@ =~= rv[i as int]);
        }
        out.push(row);
        i += 1;
    }
    proof {
        assert(rows_view(out@) =~= rv);
    }
    out
}

/// Equal concatenations with equally long heads split into equal parts.
proof fn lemma_concat_split(a: Seq<u8>, b: Seq<u8>, c: Seq<u8>, d: Seq<u8>)
    requires
        a + b == c + d,
        a.len() == c.len(),
    ensures
        a == c,
        b == d,
{
    assert forall|i: int| 0 <= i < a.len() implies a[i] == c[i] by {
        assert((a + b)[i] == a[i]);
        assert((c + d)[i] == c[i]);
    }
    assert(a =~= c);
    assert((a + b).len() == a.len() + b.len());
    assert((c + d).len() == c.len() + d.len());
    assert(b.len() == d.len());
    assert forall|i: int| 0 <= i < b.len() implies b[i] == d[i] by {
        assert((a + b)[a.len() + i] == b[i]);
        assert((c + d)[c.len() + i] == d[i]);
    }
    assert(b =~= d);
}

/// Two 8-byte prefixes that encode `x` and `y` agree exactly when the
/// numbers agree, and leave equal tails.
proof fn lemma_u64_prefix(x: u64, y: u64, a: Seq<u8>, b: Seq<u8>)
    requires
        spec_u64_to_le_bytes(x) + a == spec_u64_to_le_bytes(y) + b,
    ensures
        x == y,
        a == b,
{
    lemma_auto_spec_u64_to_from_le_bytes();
    lemma_concat_split(spec_u64_to_le_bytes(x), a, spec_u64_to_le_bytes(y), b);
}

/// Casting to the unsigned bit pattern loses no information.
proof fn lemma_i64_cast_inj(x: i64, y: i64)
    requires
        x as u64 == y as u64,
    ensures
        x == y,
{
    assert((x as u64 == y as u64) ==> x == y) by (bit_vector);
}

/// The bit pattern of a signed value casts back to that value.
proof fn lemma_i64_cast_round(x: i64)
    ensures
        ((x as u64) as i64) == x,
{
    assert(((x as u64) as i64) == x) by (bit_vector);
}

/// A value's encoding, as a prefix, determines the value and the tail.
proof fn lemma_enc_value_inj(t: Ptype, v1: ValueV, v2: ValueV, a: Seq<u8>, b: Seq<u8>)
    requires
        value_matches(t, v1),
        value_matches(t, v2),
        v1 matches ValueV::Str(s1) ==> s1.len() <= u64::MAX,
        v2 matches ValueV::Str(s2) ==> s2.len() <= u64::MAX,
        enc_value(v1) + a == enc_value(v2) + b,
    ensures
        v1 == v2,
        a == b,
{
    match (v1, v2) {
        (ValueV::Int(x), ValueV::Int(y)) => {
            lemma_u64_prefix(x as u64, y as u64, a, b);
            lemma_i64_cast_inj(x, y);
        },
        (ValueV::Ts(x), ValueV::Ts(y)) => {
            lemma_u64_prefix(x as u64, y as u64, a, b);
            lemma_i64_cast_inj(x, y);
        },
        (ValueV::Str(s1), ValueV::Str(s2)) => {
            assert(enc_value(v1) + a =~= spec_u64_to_le_bytes(s1.len() as u64) + (s1 + a));
            assert(enc_value(v2) + b =~= spec_u64_to_le_bytes(s2.len() as u64) + (s2 + b));
            lemma_u64_prefix(s1.len() as u64, s2.len() as u64, s1 + a, s2 + b);
            assert(s1.len() == s2.len());
            lemma_concat_split(s1, a, s2, b);
        },
        _ => {},
    }
}

/// Equal definition levels mean the same presence pattern.
proof fn lemma_def_levels_eq(
    r1: Seq<Seq<Option<ValueV>>>,
    r2: Seq<Seq<Option<ValueV>>>,
    j: int,
)
    requires
        r1.len() == r2.len(),
        def_levels(r1, j) == def_levels(r2, j),
    ensures
        forall|k: int| 0 <= k < r1.len() ==> (#[trigger] r1[k][j] is Some <==> r2[k][j] is Some),
{
    assert forall|k: int| 0 <= k < r1.len()
        implies (#[trigger] r1[k][j] is Some <==> r2[k][j] is Some) by {
        assert(def_levels(r1, j)[k] == def_levels(r2, j)[k]);
        if r1[k][j] is Some {
            assert(def_levels(r1, j)[k] == 1u8);
            assert(def_levels(r2, j)[k] == 1u8);
            assert(r2[k][j] is Some);
        } else {
            assert(def_levels(r1, j)[k] == 0u8);
            assert(def_levels(r2, j)[k] == 0u8);
            assert(r2[k][j] is None);
        }
    }
}

/// A column's value bytes, as a prefix, determine every cell from `i`
/// on and the tail — given the presence pattern agrees.
proof fn lemma_enc_vals_inj(
    s: Seq<FieldV>,
    r1: Seq<Seq<Option<ValueV>>>,
    r2: Seq<Seq<Option<ValueV>>>,
    i: int,
    j: int,
    a: Seq<u8>,
    b: Seq<u8>,
)
    requires
        rows_conform(s, r1),
        rows_conform(s, r2),
        r1.len() == r2.len(),
        0 <= j < s.len(),
        0 <= i <= r1.len(),
        forall|k: int| i <= k < r1.len() ==> (#[trigger] r1[k][j] is Some <==> r2[k][j] is Some),
        enc_col_values(r1, i, j) + a == enc_col_values(r2, i, j) + b,
    ensures
        forall|k: int| i <= k < r1.len() ==> #[trigger] r1[k][j] == r2[k][j],
        a == b,
    decreases r1.len() - i,
{
    if i >= r1.len() {
        assert(Seq::<u8>::empty() + a =~= a);
        assert(Seq::<u8>::empty() + b =~= b);
    } else {
        assert(row_conforms(s, r1[i]));
        assert(row_conforms(s, r2[i]));
        if r1[i][j] is Some {
            let v1 = r1[i][j]->0;
            let v2 = r2[i][j]->0;
            assert(enc_col_values(r1, i, j) + a
                =~= enc_value(v1) + (enc_col_values(r1, i + 1, j) + a));
            assert(enc_col_values(r2, i, j) + b
                =~= enc_value(v2) + (enc_col_values(r2, i + 1, j) + b));
            assert(value_matches(s[j].ptype, v1));
            assert(value_matches(s[j].ptype, v2));
            assert(usize::MAX <= u64::MAX);
            lemma_enc_value_inj(
                s[j].ptype,
                v1,
                v2,
                enc_col_values(r1, i + 1, j) + a,
                enc_col_values(r2, i + 1, j) + b,
            );
            lemma_enc_vals_inj(s, r1, r2, i + 1, j, a, b);
        } else {
            assert(r2[i][j] is None);
            assert(enc_col_values(r1, i, j) + a =~= enc_col_values(r1, i + 1, j) + a);
            assert(enc_col_values(r2, i, j) + b =~= enc_col_values(r2, i + 1, j) + b);
            lemma_enc_vals_inj(s, r1, r2, i + 1, j, a, b);
        }
    }
}

/// A whole column's bytes, as a prefix, determine the column's cells
/// and the tail.
proof fn lemma_enc_col_inj(
    s: Seq<FieldV>,
    r1: Seq<Seq<Option<ValueV>>>,
    r2: Seq<Seq<Option<ValueV>>>,
    j: int,
    a: Seq<u8>,
    b: Seq<u8>,
)
    requires
        rows_conform(s, r1),
        rows_conform(s, r2),
        r1.len() == r2.len(),
        0 <= j < s.len(),
        enc_col(s[j], r1, j) + a == enc_col(s[j], r2, j) + b,
    ensures
        forall|k: int| 0 <= k < r1.len() ==> #[trigger] r1[k][j] == r2[k][j],
        a == b,
{
    if s[j].nullable {
        assert(enc_col(s[j], r1, j) + a
            =~= def_levels(r1, j) + (enc_col_values(r1, 0, j) + a));
        assert(enc_col(s[j], r2, j) + b
            =~= def_levels(r2, j) + (enc_col_values(r2, 0, j) + b));
        lemma_concat_split(
            def_levels(r1, j),
            enc_col_values(r1, 0, j) + a,
            def_levels(r2, j),
            enc_col_values(r2, 0, j) + b,
        );
        lemma_def_levels_eq(r1, r2, j);
        lemma_enc_vals_inj(s, r1, r2, 0, j, a, b);
    } else {
        assert forall|k: int| 0 <= k < r1.len()
            implies (#[trigger] r1[k][j] is Some <==> r2[k][j] is Some) by {
            assert(row_conforms(s, r1[k]));
            assert(row_conforms(s, r2[k]));
        }
        lemma_enc_vals_inj(s, r1, r2, 0, j, a, b);
    }
}

/// The columns from `j` onward, as a prefix, determine every cell of
/// those columns and the tail.
proof fn lemma_enc_cols_inj(
    s: Seq<FieldV>,
    r1: Seq<Seq<Option<ValueV>>>,
    r2: Seq<Seq<Option<ValueV>>>,
    j: int,
    a: Seq<u8>,
    b: Seq<u8>,
)
    requires
        rows_conform(s, r1),
        rows_conform(s, r2),
        r1.len() == r2.len(),
        0 <= j <= s.len(),
        enc_cols(s, r1, j) + a == enc_cols(s, r2, j) + b,
    ensures
        forall|k: int, jj: int| 0 <= k < r1.len() && j <= jj < s.len()
            ==> #[trigger] r1[k][jj] == r2[k][jj],
        a == b,
    decreases s.len() - j,
{
    if j >= s.len() {
        assert(Seq::<u8>::empty() + a =~= a);
        assert(Seq::<u8>::empty() + b =~= b);
    } else {
        assert(enc_cols(s, r1, j) + a =~= enc_col(s[j], r1, j) + (enc_cols(s, r1, j + 1) + a));
        assert(enc_cols(s, r2, j) + b =~= enc_col(s[j], r2, j) + (enc_cols(s, r2, j + 1) + b));
        lemma_enc_col_inj(s, r1, r2, j, enc_cols(s, r1, j + 1) + a, enc_cols(s, r2, j + 1) + b);
        lemma_enc_cols_inj(s, r1, r2, j + 1, a, b);
    }
}

/// Law: round trip. The column-major image of conforming rows
/// determines those rows — two conforming row sequences with the same
/// image are the same sequence. Together with the writer's contract
/// (the written bytes are the image of the given rows) and the reader's
/// contract (the returned rows conform and have the read bytes as
/// image), writing rows and reading the result back yields exactly the
/// rows that were written.
pub proof fn lemma_encode_injective(
    s: Seq<FieldV>,
    r1: Seq<Seq<Option<ValueV>>>,
    r2: Seq<Seq<Option<ValueV>>>,
)
    requires
        rows_conform(s, r1),
        rows_conform(s, r2),
        spec_encode(s, r1) == spec_encode(s, r2),
    ensures
        r1 == r2,
{
    lemma_u64_prefix(r1.len() as u64, r2.len() as u64, enc_cols(s, r1, 0), enc_cols(s, r2, 0));
    assert(r1.len() == r2.len());
    assert(enc_cols(s, r1, 0) + Seq::<u8>::empty() =~= enc_cols(s, r1, 0));
    assert(enc_cols(s, r2, 0) + Seq::<u8>::empty() =~= enc_cols(s, r2, 0));
    lemma_enc_cols_inj(s, r1, r2, 0, Seq::<u8>::empty(), Seq::<u8>::empty());
    assert forall|k: int| 0 <= k < r1.len() implies r1[k] == r2[k] by {
        assert(row_conforms(s, r1[k]));
        assert(row_conforms(s, r2[k]));
        assert(r1[k] =~= r2[k]);
    }
    assert(r1 =~= r2);
}

} // verus!
