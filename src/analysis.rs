//! Column lookup and replacement by name, and the id join that pairs each
//! atom of a frame with the same atom of the reference frame.

use vstd::prelude::*;
use crate::table::{Column, ColumnData, Table, Values};

verus! {

/// Why a column could not be used.
#[derive(Debug, Clone, Copy, PartialEq, Eq, Structural)]
pub enum ColumnError {
    /// No column has the name.
    NotFound,
    /// The column is not of integers.
    NotInteger,
    /// The new values are not one per row.
    LengthMismatch,
}

fn same_chars(a: &str, b: &str) -> (r: bool)
    ensures
        r == (a@ == b@),
{
    let ca = crate::text::line_chars(a);
    let cb = crate::text::line_chars(b);
    if ca.len() != cb.len() {
        return false;
    }
    let mut k: usize = 0;
    while k < ca.len()
        invariant
            ca@ == a@,
            cb@ == b@,
            ca.len() == cb.len(),
            k <= ca.len(),
            forall|m: int| 0 <= m < k ==> ca@[m] == cb@[m],
        decreases ca.len() - k,
    {
        if ca[k] != cb[k] {
            assert(ca@[k as int] != cb@[k as int]);
            assert(a@[k as int] != b@[k as int]);
            return false;
        }
        k += 1;
    }
    assert(ca@ =~= cb@);
    true
}

/// The index of the first column named `name`, if any.
pub fn column_index(t: &Table, name: &str) -> (r: Option<usize>)
    ensures
        match r {
            Some(c) => c < t.columns.len() && t.columns@[c as int].name@ == name@ && forall|k: int|
                0 <= k < c ==> (#[trigger] t.columns@[k]).name@ != name@,
            None => forall|k: int| 0 <= k < t.columns.len() ==> (#[trigger] t.columns@[k]).name@ != name@,
        },
{
    let mut c: usize = 0;
    while c < t.columns.len()
        invariant
            c <= t.columns.len(),
            forall|k: int| 0 <= k < c ==> (#[trigger] t.columns@[k]).name@ != name@,
        decreases t.columns.len() - c,
    {
        if same_chars(t.columns[c].name.as_str(), name) {
            return Some(c);
        }
        c += 1;
    }
    None
}

impl Table {
    /// Replaces the values of the first column named `name`; the other
    /// columns, and all names, stay as they were.
    pub fn replace(&mut self, name: &str, data: ColumnData) -> (r: Result<(), ColumnError>)
        ensures
            match r {
                Ok(()) => exists|c: int|
                    0 <= c < old(self).columns.len() && old(self).columns@[c].name@ == name@
                        && (forall|k: int| 0 <= k < c ==> (#[trigger] old(self).columns@[k]).name@ != name@)
                        && data.spec_len() == old(self).columns@[c].data.spec_len()
                        && final(self).view() == old(self).view().update(
                        c,
                        (name@, data.view()),
                    ),
                Err(ColumnError::NotFound) => *final(self) == *old(self) && forall|k: int|
                    0 <= k < old(self).columns.len() ==> (#[trigger] old(self).columns@[k]).name@
                        != name@,
                Err(ColumnError::LengthMismatch) => *final(self) == *old(self) && exists|c: int|
                    0 <= c < old(self).columns.len() && old(self).columns@[c].name@ == name@
                        && (forall|k: int| 0 <= k < c ==> (#[trigger] old(self).columns@[k]).name@ != name@)
                        && data.spec_len() != old(self).columns@[c].data.spec_len(),
                Err(ColumnError::NotInteger) => false,
            },
    {
        let c = match column_index(self, name) {
            Some(c) => c,
            None => {
                return Err(ColumnError::NotFound);
            },
        };
        if data.len() != self.columns[c].data.len() {
            return Err(ColumnError::LengthMismatch);
        }
        let ghost before = self.view();
        let col_name = self.columns[c].name.clone();
        self.columns.set(c, Column { name: col_name, data });
        assert(self.view() =~= before.update(c as int, (name@, data.view())));
        Ok(())
    }
}

/// Pairs `(i, j)` of row `i` of a frame, whose id is `v`, with each row `j`
/// of the reference ids that holds `v`, in reference order.
pub open spec fn matches_of(reference: Seq<i64>, v: i64, i: int) -> Seq<(int, int)>
    decreases reference.len(),
{
    if reference.len() == 0 {
        seq![]
    } else {
        let rest = matches_of(reference.drop_last(), v, i);
        if reference.last() == v {
            rest.push((i, reference.len() - 1))
        } else {
            rest
        }
    }
}

/// The inner join on id: for each row of the frame in order, its matches in
/// the reference.
pub open spec fn id_join(reference: Seq<i64>, ids: Seq<i64>) -> Seq<(int, int)>
    decreases ids.len(),
{
    if ids.len() == 0 {
        seq![]
    } else {
        id_join(reference, ids.drop_last()) + matches_of(reference, ids.last(), ids.len() - 1)
    }
}

pub open spec fn pairs_view(p: Seq<(usize, usize)>) -> Seq<(int, int)> {
    p.map_values(|q: (usize, usize)| (q.0 as int, q.1 as int))
}

/// Pairs each row of a frame with the rows of the reference that hold the
/// same id.
pub fn join_ids(reference: &Vec<i64>, ids: &Vec<i64>) -> (r: Vec<(usize, usize)>)
    ensures
        pairs_view(r@) == id_join(reference@, ids@),
{
    let mut out: Vec<(usize, usize)> = Vec::new();
    let mut i: usize = 0;
    while i < ids.len()
        invariant
            i <= ids.len(),
            pairs_view(out@) == id_join(reference@, ids@.take(i as int)),
        decreases ids.len() - i,
    {
        let ghost base = out@;
        let mut j: usize = 0;
        while j < reference.len()
            invariant
                i < ids.len(),
                j <= reference.len(),
                pairs_view(base) == id_join(reference@, ids@.take(i as int)),
                pairs_view(out@) == pairs_view(base) + matches_of(
                    reference@.take(j as int),
                    ids@[i as int],
                    i as int,
                ),
            decreases reference.len() - j,
        {
            assert(reference@.take(j + 1).drop_last() =~= reference@.take(j as int));
            if reference[j] == ids[i] {
                let ghost prev = out@;
                out.push((i, j));
                assert(pairs_view(out@) =~= pairs_view(prev).push((i as int, j as int)));
            }
            j += 1;
        }
        assert(reference@.take(reference.len() as int) =~= reference@);
        assert(ids@.take(i + 1).drop_last() =~= ids@.take(i as int));
        i += 1;
    }
    assert(ids@.take(ids.len() as int) =~= ids@);
    out
}

/// `c` is the first column of `t` named `name`.
pub open spec fn first_named_at(t: Table, name: Seq<char>, c: int) -> bool {
    &&& 0 <= c < t.columns.len()
    &&& t.columns@[c].name@ == name
    &&& forall|k: int| 0 <= k < c ==> (#[trigger] t.columns@[k]).name@ != name
}

/// What looking up the integers of the first column named `name` gives.
pub open spec fn integer_lookup(t: Table, name: Seq<char>, r: Result<Seq<i64>, ColumnError>) -> bool {
    match r {
        Ok(v) => exists|c: int|
            first_named_at(t, name, c) && #[trigger] t.columns@[c].data.view() == Values::Integer(v),
        Err(ColumnError::NotFound) => forall|k: int|
            0 <= k < t.columns.len() ==> (#[trigger] t.columns@[k]).name@ != name,
        Err(ColumnError::NotInteger) => exists|c: int|
            first_named_at(t, name, c) && !(#[trigger] t.columns@[c].data is Integer),
        Err(ColumnError::LengthMismatch) => false,
    }
}

/// The integer values of the first column named `name`.
pub fn integer_column<'a>(t: &'a Table, name: &str) -> (r: Result<&'a Vec<i64>, ColumnError>)
    ensures
        integer_lookup(
            *t,
            name@,
            match r {
                Ok(v) => Ok(v@),
                Err(e) => Err(e),
            },
        ),
{
    let c = match column_index(t, name) {
        Some(c) => c,
        None => {
            return Err(ColumnError::NotFound);
        },
    };
    assert(first_named_at(*t, name@, c as int));
    match &t.columns[c].data {
        ColumnData::Integer(v) => {
            assert(t.columns@[c as int].data.view() == Values::Integer(v@));
            Ok(v)
        },
        _ => {
            assert(!(t.columns@[c as int].data is Integer));
            Err(ColumnError::NotInteger)
        },
    }
}

/// The row pairs over which a frame's displacement from the reference is
/// averaged: the inner join of the two tables on their first columns named
/// `key`, which must hold integers. The reference is looked up first.
pub fn msd_pairs(reference: &Table, frame: &Table, key: &str) -> (r: Result<
    Vec<(usize, usize)>,
    ColumnError,
>)
    ensures
        match r {
            Ok(p) => exists|a: Seq<i64>, b: Seq<i64>|
                integer_lookup(*reference, key@, Ok(a)) && integer_lookup(*frame, key@, Ok(b))
                    && pairs_view(p@) == id_join(a, b),
            Err(e) => integer_lookup(*reference, key@, Err(e)) || exists|a: Seq<i64>|
                integer_lookup(*reference, key@, Ok(a)) && integer_lookup(*frame, key@, Err(e)),
        },
{
    let a = match integer_column(reference, key) {
        Ok(a) => a,
        Err(e) => {
            return Err(e);
        },
    };
    let b = match integer_column(frame, key) {
        Ok(b) => b,
        Err(e) => {
            return Err(e);
        },
    };
    Ok(join_ids(a, b))
}

} // verus!
