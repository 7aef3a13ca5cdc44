//! The tabular view of a decoded dataset: one row per frame in a requested
//! window, with array values flattened into one cell per element and a
//! matching header list.

use vstd::prelude::*;
use vstd::string::StringExecFns;
use crate::model::{DataValue, DataValueV, DatarefDefV, XDRData};
use crate::text::{indexed_name, spec_indexed_name};

verus! {

/// One flattened cell; float payloads are binary32 bit patterns.
pub enum TableCell {
    Float(u32),
    Int(i32),
    Text(String),
}

/// Ghost counterpart of `TableCell`.
pub enum TableCellV {
    Float(u32),
    Int(i32),
    Text(Seq<char>),
}

impl View for TableCell {
    type V = TableCellV;

    open spec fn view(&self) -> TableCellV {
        match self {
            TableCell::Float(b) => TableCellV::Float(*b),
            TableCell::Int(v) => TableCellV::Int(*v),
            TableCell::Text(s) => TableCellV::Text(s@),
        }
    }
}

/// One table row: the frame's position, its timestamp bits and its
/// flattened cells.
pub struct TableRow {
    pub index: usize,
    pub timestamp: u32,
    pub values: Vec<TableCell>,
}

/// Ghost counterpart of `TableRow`.
pub struct TableRowV {
    pub index: usize,
    pub timestamp: u32,
    pub values: Seq<TableCellV>,
}

impl View for TableRow {
    type V = TableRowV;

    open spec fn view(&self) -> TableRowV {
        TableRowV {
            index: self.index,
            timestamp: self.timestamp,
            values: self.values@.map(|i: int, c: TableCell| c@),
        }
    }
}

/// A window of the table: headers, rows, and the total frame count.
pub struct TableData {
    pub headers: Vec<String>,
    pub rows: Vec<TableRow>,
    pub total: usize,
}

/// The cells one decoded value contributes: scalars one cell, arrays one
/// cell per element.
pub open spec fn spec_flatten_value(v: DataValueV) -> Seq<TableCellV> {
    match v {
        DataValueV::Float(b) => seq![TableCellV::Float(b)],
        DataValueV::Int(x) => seq![TableCellV::Int(x)],
        DataValueV::Str(s) => seq![TableCellV::Text(s)],
        DataValueV::FloatArray(a) => Seq::new(a.len(), |j: int| TableCellV::Float(a[j])),
        DataValueV::IntArray(a) => Seq::new(a.len(), |j: int| TableCellV::Int(a[j])),
    }
}

/// The cells of a whole frame, from value `k` on.
pub open spec fn spec_flatten_values(vs: Seq<DataValueV>, k: int) -> Seq<TableCellV>
    decreases vs.len() - k,
{
    if k < 0 || k >= vs.len() {
        Seq::empty()
    } else {
        spec_flatten_value(vs[k]) + spec_flatten_values(vs, k + 1)
    }
}

/// The per-channel column titles, from entry `i` on: the dataref name, or
/// one indexed name per array element.
pub open spec fn spec_column_titles(ds: Seq<DatarefDefV>, i: int) -> Seq<Seq<char>>
    decreases ds.len() - i,
{
    if i < 0 || i >= ds.len() {
        Seq::empty()
    } else {
        let own = if ds[i].array_size > 0 {
            Seq::new(
                ds[i].array_size as nat,
                |j: int| spec_indexed_name(ds[i].name, j as nat),
            )
        } else {
            seq![ds[i].name]
        };
        own + spec_column_titles(ds, i + 1)
    }
}

/// Flattens one frame's values into cells.
fn flatten_values(values: &Vec<DataValue>) -> (r: Vec<TableCell>)
    ensures
        r@.map(|i: int, c: TableCell| c@) == spec_flatten_values(
            values@.map(|i: int, v: DataValue| v@),
            0,
        ),
{
    let ghost vs = values@.map(|i: int, v: DataValue| v@);
    let mut cells: Vec<TableCell> = Vec::new();
    let mut k: usize = 0;
    proof {
        assert(cells@.map(|i: int, c: TableCell| c@) + spec_flatten_values(vs, 0)
            =~= spec_flatten_values(vs, 0));
    }
    while k < values.len()
        invariant
            vs == values@.map(|i: int, v: DataValue| v@),
            k <= values@.len(),
            spec_flatten_values(vs, 0) == cells@.map(|i: int, c: TableCell| c@)
                + spec_flatten_values(vs, k as int),
        decreases values@.len() - k,
    {
        let ghost cells0 = cells@.map(|i: int, c: TableCell| c@);
        let ghost v = vs[k as int];
        proof {
            assert(v == values@[k as int]@);
        }
        match &values[k] {
            DataValue::Float(b) => {
                cells.push(TableCell::Float(*b));
                proof {
                    assert(cells@.map(|i: int, c: TableCell| c@) =~= cells0 + spec_flatten_value(
                        v,
                    ));
                }
            },
            DataValue::Int(x) => {
                cells.push(TableCell::Int(*x));
                proof {
                    assert(cells@.map(|i: int, c: TableCell| c@) =~= cells0 + spec_flatten_value(
                        v,
                    ));
                }
            },
            DataValue::Str(s) => {
                cells.push(TableCell::Text(s.clone()));
                proof {
                    assert(cells@.map(|i: int, c: TableCell| c@) =~= cells0 + spec_flatten_value(
                        v,
                    ));
                }
            },
            DataValue::FloatArray(a) => {
                let mut j: usize = 0;
                while j < a.len()
                    invariant
                        j <= a@.len(),
                        v == DataValueV::FloatArray(a@),
                        cells@.map(|i: int, c: TableCell| c@) =~= cells0 + Seq::new(
                            j as nat,
                            |t: int| TableCellV::Float(a@[t]),
                        ),
                    decreases a@.len() - j,
                {
                    let ghost before = cells@.map(|i: int, c: TableCell| c@);
                    cells.push(TableCell::Float(a[j]));
                    proof {
                        assert(cells@.map(|i: int, c: TableCell| c@) =~= before + seq![
                            TableCellV::Float(a@[j as int]),
                        ]);
                        assert(before + seq![TableCellV::Float(a@[j as int])] =~= cells0
                            + Seq::new((j + 1) as nat, |t: int| TableCellV::Float(a@[t])));
                    }
                    j = j + 1;
                }
                proof {
                    assert(spec_flatten_value(v) =~= Seq::new(
                        a@.len(),
                        |t: int| TableCellV::Float(a@[t]),
                    ));
                }
            },
            DataValue::IntArray(a) => {
                let mut j: usize = 0;
                while j < a.len()
                    invariant
                        j <= a@.len(),
                        v == DataValueV::IntArray(a@),
                        cells@.map(|i: int, c: TableCell| c@) =~= cells0 + Seq::new(
                            j as nat,
                            |t: int| TableCellV::Int(a@[t]),
                        ),
                    decreases a@.len() - j,
                {
                    let ghost before = cells@.map(|i: int, c: TableCell| c@);
                    cells.push(TableCell::Int(a[j]));
                    proof {
                        assert(cells@.map(|i: int, c: TableCell| c@) =~= before + seq![
                            TableCellV::Int(a@[j as int]),
                        ]);
                        assert(before + seq![TableCellV::Int(a@[j as int])] =~= cells0 + Seq::new(
                            (j + 1) as nat,
                            |t: int| TableCellV::Int(a@[t]),
                        ));
                    }
                    j = j + 1;
                }
                proof {
                    assert(spec_flatten_value(v) =~= Seq::new(
                        a@.len(),
                        |t: int| TableCellV::Int(a@[t]),
                    ));
                }
            },
        }
        k = k + 1;
        proof {
            assert(spec_flatten_values(vs, k - 1) == spec_flatten_value(v) + spec_flatten_values(
                vs,
                k as int,
            ));
            assert(cells0 + (spec_flatten_value(v) + spec_flatten_values(vs, k as int))
                =~= (cells0 + spec_flatten_value(v)) + spec_flatten_values(vs, k as int));
        }
    }
    proof {
        assert(spec_flatten_values(vs, k as int) =~= Seq::<TableCellV>::empty());
        assert(cells@.map(|i: int, c: TableCell| c@) + Seq::<TableCellV>::empty() =~= cells@.map(
            |i: int, c: TableCell| c@,
        ));
    }
    cells
}

impl XDRData {
    /// The table window starting at frame `start`, at most `count` rows:
    /// per-column headers ("Index" and "Timestamp" first), one row per frame
    /// with its values flattened, and the total frame count.
    pub fn get_table_data(&self, start: usize, count: usize) -> (r: TableData)
        ensures
            r.total == self.frames@.len(),
            r.headers@.map(|i: int, h: String| h@) == seq!["Index"@, "Timestamp"@]
                + spec_column_titles(self.datarefs_view(), 0),
            r.rows@.len() == (if start <= self.frames@.len() {
                if start + count <= self.frames@.len() {
                    count as int
                } else {
                    self.frames@.len() - start
                }
            } else {
                0
            }),
            forall|j: int|
                0 <= j < r.rows@.len() ==> (#[trigger] r.rows@[j])@ == (TableRowV {
                    index: (start + j) as usize,
                    timestamp: self.frames_view()[start + j].timestamp,
                    values: spec_flatten_values(self.frames_view()[start + j].values, 0),
                }),
    {
        let ghost fv = self.frames_view();
        let ghost ds = self.datarefs_view();
        let n: usize = self.frames.len();
        let end: usize = if start >= n {
            n
        } else if count > n - start {
            n
        } else {
            start + count
        };
        let mut rows: Vec<TableRow> = Vec::new();
        let mut i: usize = if start >= n {
            n
        } else {
            start
        };
        let ghost row_base = i as int;
        while i < end
            invariant
                n == self.frames@.len(),
                fv == self.frames_view(),
                row_base <= i,
                i <= end <= n,
                start <= n ==> row_base == start,
                start > n ==> row_base == n && end == n,
                rows@.len() == i - row_base,
                forall|j: int|
                    0 <= j < rows@.len() ==> (#[trigger] rows@[j])@ == (TableRowV {
                        index: (row_base + j) as usize,
                        timestamp: fv[row_base + j].timestamp,
                        values: spec_flatten_values(fv[row_base + j].values, 0),
                    }),
            decreases end - i,
    {
            let frame = &self.frames[i];
            proof {
                assert(fv[i as int] == self.frames@[i as int]@);
            }
            let cells = flatten_values(&frame.values);
            rows.push(TableRow { index: i, timestamp: frame.timestamp, values: cells });
            i = i + 1;
        }
        let mut headers: Vec<String> = Vec::new();
        headers.push(String::from_str("Index"));
        headers.push(String::from_str("Timestamp"));
        proof {
            assert(headers@.map(|t: int, h: String| h@) =~= seq!["Index"@, "Timestamp"@]);
            assert(seq!["Index"@, "Timestamp"@] + spec_column_titles(ds, 0) =~= headers@.map(
                |t: int, h: String| h@,
            ) + spec_column_titles(ds, 0));
        }
        let dn: usize = self.datarefs.len();
        let mut k: usize = 0;
        while k < dn
            invariant
                dn == self.datarefs@.len(),
                ds == self.datarefs_view(),
                k <= dn,
                seq!["Index"@, "Timestamp"@] + spec_column_titles(ds, 0) == headers@.map(
                    |t: int, h: String| h@,
                ) + spec_column_titles(ds, k as int),
            decreases dn - k,
        {
            let ghost headers0 = headers@.map(|t: int, h: String| h@);
            let ghost d = ds[k as int];
            let dr = &self.datarefs[k];
            proof {
                assert(d == self.datarefs@[k as int]@);
            }
            if dr.array_size > 0 {
                let asz: u8 = dr.array_size;
                let mut j: u8 = 0;
                while j < asz
                    invariant
                        dn == self.datarefs@.len(),
                        ds == self.datarefs_view(),
                        k < dn,
                        d == ds[k as int],
                        j <= asz,
                        asz == d.array_size,
                        dr == self.datarefs@[k as int],
                        headers@.map(|t: int, h: String| h@) =~= headers0 + Seq::new(
                            j as nat,
                            |t: int| spec_indexed_name(d.name, t as nat),
                        ),
                    decreases asz - j,
                {
                    let ghost before = headers@.map(|t: int, h: String| h@);
                    let h = indexed_name(&dr.name, j as u64);
                    let ghost hv = h@;
                    headers.push(h);
                    proof {
                        assert(headers@.map(|t: int, h: String| h@) =~= before + seq![hv]);
                        assert(before + seq![hv] =~= headers0 + Seq::new(
                            (j + 1) as nat,
                            |t: int| spec_indexed_name(d.name, t as nat),
                        ));
                    }
                    j = j + 1;
                }
                proof {
                    assert(Seq::new(asz as nat, |t: int| spec_indexed_name(d.name, t as nat))
                        + spec_column_titles(ds, k + 1) =~= Seq::new(
                        asz as nat,
                        |t: int| spec_indexed_name(d.name, t as nat),
                    ) + spec_column_titles(ds, k + 1));
                    assert(headers0 + (Seq::new(
                        asz as nat,
                        |t: int| spec_indexed_name(d.name, t as nat),
                    ) + spec_column_titles(ds, k + 1)) =~= headers@.map(|t: int, h: String| h@)
                        + spec_column_titles(ds, k + 1));
                }
            } else {
                let ghost before = headers@.map(|t: int, h: String| h@);
                headers.push(dr.name.clone());
                proof {
                    assert(headers@.map(|t: int, h: String| h@) =~= before + seq![d.name]);
                    assert(before + (seq![d.name] + spec_column_titles(ds, k + 1))
                        =~= headers@.map(|t: int, h: String| h@) + spec_column_titles(ds, k + 1));
                }
            }
            k = k + 1;
        }
        proof {
            assert(spec_column_titles(ds, dn as int) =~= Seq::<Seq<char>>::empty());
            assert(headers@.map(|t: int, h: String| h@) + Seq::<Seq<char>>::empty()
                =~= headers@.map(|t: int, h: String| h@));
        }
        TableData { headers, rows, total: n }
    }
}

} // verus!
