//! Projecting a decoded column batch into display rows.
//!
//! A format decoder hands back a batch of named, typed columns of equal row
//! count. The projector turns it into one record per row: the column names
//! in schema order, each value rendered to text by a fixed, total
//! per-kind rule — null renders as the literal `NULL`, and value kinds the
//! library does not model as scalars (floating point, nested types) arrive
//! already rendered by the decoder side and pass through unchanged.

use vstd::prelude::*;

verus! {

/// A column's name and type, as reported for an ORC file's schema.
#[derive(Debug, Clone)]
pub struct OrcField {
    pub name: String,
    pub field_type: String,
}

/// Row count and compression of an ORC file.
#[derive(Debug, Clone)]
pub struct OrcMeta {
    pub total: i64,
    pub compression_type: Option<String>,
}

/// A result column of a paged ORC read.
#[derive(Debug, Clone)]
pub struct ReadOrcResultColumn {
    pub name: String,
    pub data_type: String,
}

/// A column's name and type, as reported for a Parquet file's schema.
#[derive(Debug, Clone)]
pub struct ParquetField {
    pub name: String,
    pub field_type: String,
}

/// Row count and compression of a Parquet file.
#[derive(Debug, Clone)]
pub struct ParquetMeta {
    pub total: i64,
    pub compression_type: Option<String>,
}

/// A result column of a paged Parquet read.
#[derive(Debug, Clone)]
pub struct ReadParquetResultColumn {
    pub name: String,
    pub data_type: String,
}

/// Assemble an ORC file's metadata: when the file reports no compression,
/// the kind reads `NONE`.
pub fn orc_meta(total: i64, compression: Option<String>) -> (r: OrcMeta)
    ensures
        r.total == total,
        r.compression_type matches Some(c) && c@ == (match compression {
            Option::Some(s) => s@,
            Option::None => "NONE"@,
        }),
{
    let compression_type = match compression {
        Some(s) => s,
        None => "NONE".to_owned(),
    };
    OrcMeta { total, compression_type: Some(compression_type) }
}

/// Assemble a Parquet file's metadata: when no column chunk reports a
/// compression, the kind reads `Uncompressed`.
pub fn parquet_meta(total: i64, compression: Option<String>) -> (r: ParquetMeta)
    ensures
        r.total == total,
        r.compression_type matches Some(c) && c@ == (match compression {
            Option::Some(s) => s@,
            Option::None => "Uncompressed"@,
        }),
{
    let compression_type = match compression {
        Some(s) => s,
        None => "Uncompressed".to_owned(),
    };
    ParquetMeta { total, compression_type: Some(compression_type) }
}

/// One typed cell value of a decoded batch. Scalar kinds the library
/// renders itself; `Rendered` carries the textual form of any other kind
/// (floating point, nested values), produced by the decoder side.
#[derive(Debug, Clone)]
pub enum CellValue {
    Null,
    Bool(bool),
    Int64(i64),
    UInt64(u64),
    Text(String),
    Rendered(String),
}

/// The decimal digit character of `d`.
pub open spec fn dec_digit(d: nat) -> char {
    if d == 0 {
        '0'
    } else if d == 1 {
        '1'
    } else if d == 2 {
        '2'
    } else if d == 3 {
        '3'
    } else if d == 4 {
        '4'
    } else if d == 5 {
        '5'
    } else if d == 6 {
        '6'
    } else if d == 7 {
        '7'
    } else if d == 8 {
        '8'
    } else {
        '9'
    }
}

/// The decimal rendering of a natural number, most significant digit
/// first, without leading zeros (`0` renders as `0`).
pub open spec fn dec_nat(n: nat) -> Seq<char>
    decreases n,
{
    if n < 10 {
        seq![dec_digit(n)]
    } else {
        dec_nat(n / 10).push(dec_digit(n % 10))
    }
}

/// The decimal rendering of an integer: a minus sign before the magnitude
/// for negative values.
pub open spec fn dec_int(i: int) -> Seq<char> {
    if i < 0 {
        seq!['-'] + dec_nat((-i) as nat)
    } else {
        dec_nat(i as nat)
    }
}

/// The fixed rendering rule, total over every cell kind a decoder can
/// produce: null renders as the literal `NULL`.
pub open spec fn render_cell(c: CellValue) -> Seq<char> {
    match c {
        CellValue::Null => "NULL"@,
        CellValue::Bool(b) => if b {
            "true"@
        } else {
            "false"@
        },
        CellValue::Int64(i) => dec_int(i as int),
        CellValue::UInt64(u) => dec_nat(u as nat),
        CellValue::Text(s) => s@,
        CellValue::Rendered(s) => s@,
    }
}

/// The character of a decimal digit.
fn digit_char(d: u64) -> (c: char)
    requires
        d < 10,
    ensures
        c == dec_digit(d as nat),
{
    if d == 0 {
        '0'
    } else if d == 1 {
        '1'
    } else if d == 2 {
        '2'
    } else if d == 3 {
        '3'
    } else if d == 4 {
        '4'
    } else if d == 5 {
        '5'
    } else if d == 6 {
        '6'
    } else if d == 7 {
        '7'
    } else if d == 8 {
        '8'
    } else {
        '9'
    }
}

/// The decimal digits of a natural number.
fn dec_chars(n: u64) -> (r: Vec<char>)
    ensures
        r@ == dec_nat(n as nat),
    decreases n,
{
    if n < 10 {
        let mut v: Vec<char> = Vec::new();
        v.push(digit_char(n));
        proof {
            assert(v@ =~= seq![dec_digit(n as nat)]);
        }
        v
    } else {
        let mut v = dec_chars(n / 10);
        v.push(digit_char(n % 10));
        v
    }
}

/// Render a natural number in decimal.
pub fn u64_to_dec(n: u64) -> (r: String)
    ensures
        r@ == dec_nat(n as nat),
{
    let v = dec_chars(n);
    crate::paths::string_from_chars(&v)
}

/// Render an integer in decimal.
pub fn i64_to_dec(i: i64) -> (r: String)
    ensures
        r@ == dec_int(i as int),
{
    if i >= 0 {
        u64_to_dec(i as u64)
    } else {
        let m: u64 = ((-(i + 1)) as u64) + 1;
        proof {
            assert(m == -(i as int));
        }
        let mut v: Vec<char> = Vec::new();
        v.push('-');
        let mut digits = dec_chars(m);
        let ghost dg = digits@;
        v.append(&mut digits);
        proof {
            assert(v@ =~= seq!['-'] + dg);
        }
        crate::paths::string_from_chars(&v)
    }
}

/// Render one cell by the fixed rule.
pub fn render_cell_string(c: &CellValue) -> (r: String)
    ensures
        r@ == render_cell(*c),
{
    match c {
        CellValue::Null => "NULL".to_owned(),
        CellValue::Bool(b) => if *b {
            "true".to_owned()
        } else {
            "false".to_owned()
        },
        CellValue::Int64(i) => i64_to_dec(*i),
        CellValue::UInt64(u) => u64_to_dec(*u),
        CellValue::Text(s) => s.clone(),
        CellValue::Rendered(s) => s.clone(),
    }
}

/// One named column of a decoded batch.
pub struct Column {
    pub name: String,
    pub values: Vec<CellValue>,
}

/// A decoded batch: named typed columns of equal row count.
pub struct ColumnBatch {
    pub columns: Vec<Column>,
}

impl ColumnBatch {
    /// The batch's row count: that of its columns.
    pub open spec fn row_count(&self) -> nat {
        if self.columns@.len() == 0 {
            0
        } else {
            self.columns@[0].values@.len()
        }
    }

    /// Every column holds exactly one value per row.
    pub open spec fn wf(&self) -> bool {
        forall|j: int|
            0 <= j < self.columns@.len() ==> (#[trigger] self.columns@[j]).values@.len()
                == self.row_count()
    }

    /// The batch's row count.
    pub fn num_rows(&self) -> (r: usize)
        ensures
            r == self.row_count(),
    {
        if self.columns.len() == 0 {
            0
        } else {
            self.columns[0].values.len()
        }
    }
}

/// One output row: column name to rendered value, in the batch's column
/// order — the record keeps insertion order, it is not keyed.
pub struct RowRecord {
    pub fields: Vec<(String, String)>,
}

/// Project a batch into one record per row: record `i` holds, for each
/// column in schema order, the column's name and the fixed rendering of
/// the column's value in row `i`.
pub fn project(batch: &ColumnBatch) -> (r: Vec<RowRecord>)
    requires
        batch.wf(),
    ensures
        r@.len() == batch.row_count(),
        forall|i: int|
            0 <= i < r@.len() ==> {
                &&& (#[trigger] r@[i]).fields@.len() == batch.columns@.len()
                &&& forall|j: int|
                    0 <= j < batch.columns@.len() ==> {
                        &&& (#[trigger] r@[i].fields@[j]).0@ == batch.columns@[j].name@
                        &&& r@[i].fields@[j].1@ == render_cell(batch.columns@[j].values@[i])
                    }
            },
{
    let rows = batch.num_rows();
    let ncols = batch.columns.len();
    let mut out: Vec<RowRecord> = Vec::new();
    let mut i: usize = 0;
    while i < rows
        invariant
            batch.wf(),
            rows == batch.row_count(),
            ncols == batch.columns@.len(),
            i <= rows,
            out@.len() == i,
            forall|a: int|
                0 <= a < i ==> {
                    &&& (#[trigger] out@[a]).fields@.len() == batch.columns@.len()
                    &&& forall|j: int|
                        0 <= j < batch.columns@.len() ==> {
                            &&& (#[trigger] out@[a].fields@[j]).0@ == batch.columns@[j].name@
                            &&& out@[a].fields@[j].1@ == render_cell(batch.columns@[j].values@[a])
                        }
                },
        decreases rows - i,
    {
        let mut fields: Vec<(String, String)> = Vec::new();
        let mut j: usize = 0;
        while j < ncols
            invariant
                batch.wf(),
                rows == batch.row_count(),
                ncols == batch.columns@.len(),
                i < rows,
                j <= ncols,
                fields@.len() == j,
                forall|b: int|
                    0 <= b < j ==> {
                        &&& (#[trigger] fields@[b]).0@ == batch.columns@[b].name@
                        &&& fields@[b].1@ == render_cell(batch.columns@[b].values@[i as int])
                    },
            decreases ncols - j,
        {
            let col = &batch.columns[j];
            let name = col.name.clone();
            let value = render_cell_string(&col.values[i]);
            fields.push((name, value));
            j = j + 1;
        }
        out.push(RowRecord { fields });
        i = i + 1;
    }
    out
}

} // verus!
