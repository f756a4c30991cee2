//! Column tables assembled from rows of words, with one inferred type per
//! column.

use vstd::prelude::*;
use crate::numeric::{float_text, i64_word, is_float_word, is_i64_word, parse_i64};
use crate::text::texts;

verus! {

/// The values of one column, as typed by inference.
#[derive(Debug, Clone, PartialEq)]
pub enum ColumnData {
    /// Every word read as an `i64`.
    Integer(Vec<i64>),
    /// Every word read as a float; the words are kept as written.
    Float(Vec<String>),
    /// Words kept verbatim.
    Text(Vec<String>),
}

/// A named column.
#[derive(Debug, Clone, PartialEq)]
pub struct Column {
    pub name: String,
    pub data: ColumnData,
}

/// Columns in header order.
#[derive(Debug, Clone, PartialEq)]
pub struct Table {
    pub columns: Vec<Column>,
}

/// Why rows could not become a table.
#[derive(Debug, Clone, Copy, PartialEq, Eq, Structural)]
pub enum TableError {
    /// There were no rows.
    EmptyColumnSet,
    /// The row at this index does not have one word per header name.
    RowWidth(usize),
}

/// The inferred type of a column.
#[derive(Debug, Clone, Copy, PartialEq, Eq, Structural)]
pub enum ColumnKind {
    Integer,
    Float,
    Text,
}

/// The values of a column.
pub enum Values {
    Integer(Seq<i64>),
    Float(Seq<Seq<char>>),
    Text(Seq<Seq<char>>),
}

/// What assembling `rows` under `header` gives.
pub open spec fn assembly(header: Seq<Seq<char>>, rows: Seq<Seq<Seq<char>>>, r: Result<
    Table,
    TableError,
>) -> bool {
    match r {
        Ok(t) => rows.len() > 0 && rows_have_width(rows, header.len() as int) && assembled(
            t,
            header,
            rows,
        ),
        Err(TableError::EmptyColumnSet) => rows.len() == 0,
        Err(TableError::RowWidth(k)) => rows.len() > 0 && k < rows.len() && rows[k as int].len()
            != header.len() && forall|m: int| 0 <= m < k ==> (#[trigger] rows[m]).len() == header.len(),
    }
}

/// Rows of words, as character sequences.
pub open spec fn rows_view(rows: Seq<Vec<String>>) -> Seq<Seq<Seq<char>>> {
    rows.map_values(|r: Vec<String>| texts(r@))
}

/// The `c`-th word of every row.
pub open spec fn column_of(rows: Seq<Seq<Seq<char>>>, c: int) -> Seq<Seq<char>> {
    rows.map_values(|r: Seq<Seq<char>>| r[c])
}

/// Whole-column inference: integer if every word is one, else float if every
/// word is one, else text.
pub open spec fn column_kind(vals: Seq<Seq<char>>) -> ColumnKind {
    if forall|i: int| 0 <= i < vals.len() ==> is_i64_word(#[trigger] vals[i]) {
        ColumnKind::Integer
    } else if forall|i: int| 0 <= i < vals.len() ==> float_text(#[trigger] vals[i]) {
        ColumnKind::Float
    } else {
        ColumnKind::Text
    }
}

impl ColumnData {
    pub open spec fn view(&self) -> Values {
        match self {
            ColumnData::Integer(v) => Values::Integer(v@),
            ColumnData::Float(v) => Values::Float(texts(v@)),
            ColumnData::Text(v) => Values::Text(texts(v@)),
        }
    }

    /// A copy with the same values.
    pub fn copy(&self) -> (r: ColumnData)
        ensures
            r.view() == self.view(),
    {
        match self {
            ColumnData::Integer(v) => {
                let c = v.clone();
                assert(c@ =~= v@);
                ColumnData::Integer(c)
            },
            ColumnData::Float(v) => {
                let c = v.clone();
                assert(c@ =~= v@);
                ColumnData::Float(c)
            },
            ColumnData::Text(v) => {
                let c = v.clone();
                assert(c@ =~= v@);
                ColumnData::Text(c)
            },
        }
    }

    pub open spec fn kind(&self) -> ColumnKind {
        match self {
            ColumnData::Integer(_) => ColumnKind::Integer,
            ColumnData::Float(_) => ColumnKind::Float,
            ColumnData::Text(_) => ColumnKind::Text,
        }
    }

    /// Number of values.
    pub open spec fn spec_len(&self) -> nat {
        match self {
            ColumnData::Integer(v) => v@.len(),
            ColumnData::Float(v) => v@.len(),
            ColumnData::Text(v) => v@.len(),
        }
    }

    /// The column holds exactly the words `vals`, read as its type says.
    pub open spec fn holds(&self, vals: Seq<Seq<char>>) -> bool {
        match self {
            ColumnData::Integer(v) => v.len() == vals.len() && forall|i: int|
                0 <= i < vals.len() ==> i64_word(vals[i], #[trigger] v@[i]),
            ColumnData::Float(v) => texts(v@) == vals,
            ColumnData::Text(v) => texts(v@) == vals,
        }
    }

    /// Number of values.
    pub fn len(&self) -> (r: usize)
        ensures
            r == self.spec_len(),
    {
        match self {
            ColumnData::Integer(v) => v.len(),
            ColumnData::Float(v) => v.len(),
            ColumnData::Text(v) => v.len(),
        }
    }
}

/// Every row has `n` words.
pub open spec fn rows_have_width(rows: Seq<Seq<Seq<char>>>, n: int) -> bool {
    forall|r: int| 0 <= r < rows.len() ==> (#[trigger] rows[r]).len() == n
}

/// The table has one column per header name, in order, each holding its
/// words of the rows under the type that whole-column inference gives.
pub open spec fn assembled(t: Table, header: Seq<Seq<char>>, rows: Seq<Seq<Seq<char>>>) -> bool {
    &&& t.columns.len() == header.len()
    &&& forall|c: int|
        0 <= c < header.len() ==> {
            let col = #[trigger] t.columns@[c];
            &&& col.name@ == header[c]
            &&& col.data.kind() == column_kind(column_of(rows, c))
            &&& col.data.holds(column_of(rows, c))
        }
}

/// The `c`-th word of every row.
pub fn column_words(rows: &Vec<Vec<String>>, c: usize) -> (r: Vec<String>)
    requires
        forall|i: int| 0 <= i < rows.len() ==> c < (#[trigger] rows@[i]).len(),
    ensures
        texts(r@) == column_of(rows_view(rows@), c as int),
{
    let mut out: Vec<String> = Vec::new();
    let mut i: usize = 0;
    while i < rows.len()
        invariant
            i <= rows.len(),
            forall|k: int| 0 <= k < rows.len() ==> c < (#[trigger] rows@[k]).len(),
            texts(out@) == column_of(rows_view(rows@.take(i as int)), c as int),
        decreases rows.len() - i,
    {
        let w = rows[i][c].clone();
        proof {
            assert(rows@.take(i + 1) =~= rows@.take(i as int).push(rows@[i as int]));
            assert(rows_view(rows@.take(i + 1)) =~= rows_view(rows@.take(i as int)).push(
                texts(rows@[i as int]@),
            ));
        }
        let ghost before = out@;
        out.push(w);
        proof {
            assert(texts(out@) =~= texts(before).push(w@));
            assert(column_of(rows_view(rows@.take(i + 1)), c as int) =~= column_of(
                rows_view(rows@.take(i as int)),
                c as int,
            ).push(w@));
        }
        i += 1;
    }
    assert(rows@.take(rows.len() as int) =~= rows@);
    out
}

/// Infers the type of a column of words and reads them under it.
pub fn infer_column(vals: Vec<String>) -> (r: ColumnData)
    ensures
        r.kind() == column_kind(texts(vals@)),
        r.holds(texts(vals@)),
{
    let ghost vs = texts(vals@);
    let mut ints: Vec<i64> = Vec::new();
    let mut all_int = true;
    let mut i: usize = 0;
    while i < vals.len()
        invariant
            vs == texts(vals@),
            i <= vals.len(),
            all_int ==> ints.len() == i,
            all_int ==> forall|k: int| 0 <= k < i ==> i64_word(vs[k], #[trigger] ints@[k]),
            all_int <==> forall|k: int| 0 <= k < i ==> is_i64_word(#[trigger] vs[k]),
        decreases vals.len() - i,
    {
        assert(vs[i as int] == vals@[i as int]@);
        match parse_i64(vals[i].as_str()) {
            Some(v) => {
                if all_int {
                    ints.push(v);
                }
            },
            None => {
                all_int = false;
            },
        }
        i += 1;
    }
    if all_int {
        return ColumnData::Integer(ints);
    }
    let mut all_float = true;
    let mut j: usize = 0;
    while j < vals.len()
        invariant
            vs == texts(vals@),
            j <= vals.len(),
            all_float <==> forall|k: int| 0 <= k < j ==> float_text(#[trigger] vs[k]),
        decreases vals.len() - j,
    {
        assert(vs[j as int] == vals@[j as int]@);
        if !is_float_word(vals[j].as_str()) {
            all_float = false;
        }
        j += 1;
    }
    if all_float {
        ColumnData::Float(vals)
    } else {
        ColumnData::Text(vals)
    }
}

/// The index of the first row whose width is not `n`, if any.
pub fn first_bad_width(rows: &Vec<Vec<String>>, n: usize) -> (r: Option<usize>)
    ensures
        match r {
            None => rows_have_width(rows_view(rows@), n as int),
            Some(k) => k < rows.len() && rows@[k as int].len() != n && forall|m: int|
                0 <= m < k ==> (#[trigger] rows@[m]).len() == n,
        },
{
    let mut i: usize = 0;
    while i < rows.len()
        invariant
            i <= rows.len(),
            forall|m: int| 0 <= m < i ==> (#[trigger] rows@[m]).len() == n,
        decreases rows.len() - i,
    {
        if rows[i].len() != n {
            return Some(i);
        }
        i += 1;
    }
    assert forall|r: int| 0 <= r < rows.len() implies (#[trigger] rows_view(rows@)[r]).len()
        == n by {
        assert(rows_view(rows@)[r] == texts(rows@[r]@));
    }
    None
}

impl Table {
    /// Names and values of the columns, in order.
    pub open spec fn view(&self) -> Seq<(Seq<char>, Values)> {
        self.columns@.map_values(|c: Column| (c.name@, c.data.view()))
    }

    /// A copy with the same columns.
    pub fn copy(&self) -> (r: Table)
        ensures
            r.view() == self.view(),
    {
        let mut columns: Vec<Column> = Vec::new();
        let mut i: usize = 0;
        while i < self.columns.len()
            invariant
                i <= self.columns.len(),
                columns.len() == i,
                forall|k: int|
                    0 <= k < i ==> (#[trigger] columns@[k]).name@ == self.columns@[k].name@
                        && columns@[k].data.view() == self.columns@[k].data.view(),
            decreases self.columns.len() - i,
        {
            let c = &self.columns[i];
            columns.push(Column { name: c.name.clone(), data: c.data.copy() });
            i += 1;
        }
        let r = Table { columns };
        assert(r.view() =~= self.view());
        r
    }

    /// Number of columns.
    pub fn width(&self) -> (r: usize)
        ensures
            r == self.columns.len(),
    {
        self.columns.len()
    }

    /// Number of rows: the length of the first column, or zero.
    pub fn height(&self) -> (r: usize)
        ensures
            self.columns.len() == 0 ==> r == 0,
            self.columns.len() > 0 ==> r == self.columns@[0].data.spec_len(),
    {
        if self.columns.len() == 0 {
            0
        } else {
            self.columns[0].data.len()
        }
    }

    /// Assembles rows of words into typed columns named by `header`.
    pub fn assemble(header: &Vec<String>, rows: &Vec<Vec<String>>) -> (r: Result<
        Table,
        TableError,
    >)
        ensures
            assembly(texts(header@), rows_view(rows@), r),
    {
        if rows.len() == 0 {
            return Err(TableError::EmptyColumnSet);
        }
        if let Some(k) = first_bad_width(rows, header.len()) {
            proof {
                let rv = rows_view(rows@);
                assert(rv[k as int] == texts(rows@[k as int]@));
                assert forall|m: int| 0 <= m < k implies (#[trigger] rv[m]).len() == header.len() by {
                    assert(rv[m] == texts(rows@[m]@));
                }
            }
            return Err(TableError::RowWidth(k));
        }
        let ghost rv = rows_view(rows@);
        let mut columns: Vec<Column> = Vec::new();
        let mut c: usize = 0;
        while c < header.len()
            invariant
                rv == rows_view(rows@),
                rows_have_width(rv, header.len() as int),
                c <= header.len(),
                columns.len() == c,
                forall|k: int|
                    0 <= k < c ==> {
                        let col = #[trigger] columns@[k];
                        &&& col.name@ == texts(header@)[k]
                        &&& col.data.kind() == column_kind(column_of(rv, k))
                        &&& col.data.holds(column_of(rv, k))
                    },
            decreases header.len() - c,
        {
            assert forall|i: int| 0 <= i < rows.len() implies c < (#[trigger] rows@[i]).len() by {
                assert(rv[i] == texts(rows@[i]@));
            }
            let vals = column_words(rows, c);
            let data = infer_column(vals);
            columns.push(Column { name: header[c].clone(), data });
            c += 1;
        }
        Ok(Table { columns })
    }
}

} // verus!
