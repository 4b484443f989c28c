use crate::error::ValidationError;
use crate::registrar::TypeHandle;
use crate::tables::{
    new_params, new_queries, new_rows, params_at, params_entries, params_index_of, params_insert,
    params_replace, queries_index_of, queries_insert, query_at, query_entries, row_at, row_entries,
    rows_index_of, rows_insert,
};
use indexmap::IndexMap;
use crate::text::{lemma_le_transitive, lemma_lt_total, seq_le, seq_lt, str_eq, str_lt};
use vstd::prelude::*;

verus! {

/// A value with the byte offset in its source file where it was written.
#[derive(Debug)]
pub struct Located<T> {
    pub value: T,
    pub pos: usize,
}

/// What a field is, as the invariants see it.
pub struct FieldView {
    pub name: Seq<char>,
    pub ty: TypeHandle,
    pub is_nullable: bool,
    pub is_inner_nullable: bool,
}

/// A row or params field.
#[derive(Debug)]
pub struct PreparedField {
    pub name: String,
    pub ty: TypeHandle,
    pub is_nullable: bool,
    /// Reserved for the nullability of an array's elements.
    pub is_inner_nullable: bool,
}

impl View for PreparedField {
    type V = FieldView;

    open spec fn view(&self) -> FieldView {
        FieldView {
            name: self.name@,
            ty: self.ty,
            is_nullable: self.is_nullable,
            is_inner_nullable: self.is_inner_nullable,
        }
    }
}

impl PreparedField {
    pub fn copy_field(&self) -> (r: PreparedField)
        ensures
            r@ == self@,
    {
        PreparedField {
            name: self.name.clone(),
            ty: self.ty,
            is_nullable: self.is_nullable,
            is_inner_nullable: self.is_inner_nullable,
        }
    }

    /// Structural equality: all four attributes match.
    pub fn same(&self, o: &PreparedField) -> (r: bool)
        ensures
            r == (self@ == o@),
    {
        str_eq(self.name.as_str(), o.name.as_str()) && self.ty == o.ty && self.is_nullable
            == o.is_nullable && self.is_inner_nullable == o.is_inner_nullable
    }
}

/// `s` holds a field equal to `f`.
pub open spec fn has_field(s: Seq<PreparedField>, f: FieldView) -> bool {
    exists|m: int| 0 <= m < s.len() && #[trigger] s[m]@ == f
}

/// Names ascend, equal names allowed.
pub open spec fn sorted_by_name(s: Seq<PreparedField>) -> bool {
    forall|i: int, j: int| 0 <= i < j < s.len() ==> seq_le(#[trigger] s[i].name@, #[trigger] s[j].name@)
}

/// Names strictly ascend.
pub open spec fn strictly_sorted_by_name(s: Seq<PreparedField>) -> bool {
    forall|i: int, j: int| 0 <= i < j < s.len() ==> seq_lt(#[trigger] s[i].name@, #[trigger] s[j].name@)
}

pub open spec fn distinct_names(s: Seq<PreparedField>) -> bool {
    forall|i: int, j: int| 0 <= i < j < s.len() ==> #[trigger] s[i].name@ != #[trigger] s[j].name@
}

/// The same fields: as many, and each of either among the other. For fields
/// with distinct names this is equality as multisets.
pub open spec fn same_fields(a: Seq<PreparedField>, b: Seq<PreparedField>) -> bool {
    &&& a.len() == b.len()
    &&& forall|i: int| 0 <= i < a.len() ==> has_field(b, #[trigger] a[i]@)
    &&& forall|i: int| 0 <= i < b.len() ==> has_field(a, #[trigger] b[i]@)
}

/// `p` lists each of `0..n` once.
pub open spec fn is_permutation(p: Seq<usize>, n: int) -> bool {
    &&& p.len() == n
    &&& forall|j: int| 0 <= j < n ==> #[trigger] p[j] < n
    &&& forall|j: int, k: int| 0 <= j < k < n ==> #[trigger] p[j] != #[trigger] p[k]
}

/// `p` is a permutation and taking `fields[p[j]]` for each `j` gives `cols`.
pub open spec fn permutes(p: Seq<usize>, fields: Seq<PreparedField>, cols: Seq<PreparedField>) -> bool {
    &&& is_permutation(p, fields.len() as int)
    &&& cols.len() == fields.len()
    &&& forall|j: int| 0 <= j < cols.len() ==> #[trigger] fields[p[j] as int]@ == cols[j]@
}

spec fn has_index(idx: Seq<int>, m: int) -> bool {
    exists|k: int| 0 <= k < idx.len() && #[trigger] idx[k] == m
}

proof fn lemma_insert_sorted(r: Seq<PreparedField>, p: int, x: PreparedField)
    requires
        sorted_by_name(r),
        0 <= p <= r.len(),
        forall|k: int| 0 <= k < p ==> seq_lt(#[trigger] r[k].name@, x.name@),
        p < r.len() ==> !seq_lt(r[p].name@, x.name@),
    ensures
        sorted_by_name(r.insert(p, x)),
{
    let s = r.insert(p, x);
    if p < r.len() {
        lemma_lt_total(r[p].name@, x.name@);
    }
    assert forall|i: int, j: int| 0 <= i < j < s.len() implies seq_le(#[trigger] s[i].name@, #[trigger] s[j].name@) by {
        if i < p && j == p {
        } else if i == p && j > p {
            assert(s[j] == r[j - 1]);
            if j - 1 > p {
                assert(seq_le(r[p].name@, r[j - 1].name@));
                lemma_le_transitive(x.name@, r[p].name@, r[j - 1].name@);
            }
        } else if i < p && j > p {
            assert(s[j] == r[j - 1]);
            assert(seq_le(r[i].name@, r[j - 1].name@));
        } else if i > p {
            assert(s[i] == r[i - 1] && s[j] == r[j - 1]);
            assert(seq_le(r[i - 1].name@, r[j - 1].name@));
        } else {
            assert(s[i] == r[i] && s[j] == r[j]);
            assert(seq_le(r[i].name@, r[j].name@));
        }
    }
}

/// The fields of `v`, sorted by name.
pub fn sort_by_name(v: &Vec<PreparedField>) -> (r: Vec<PreparedField>)
    ensures
        r.len() == v.len(),
        sorted_by_name(r@),
        forall|k: int| 0 <= k < r.len() ==> has_field(v@, #[trigger] r@[k]@),
        forall|m: int| 0 <= m < v.len() ==> has_field(r@, #[trigger] v@[m]@),
        distinct_names(v@) ==> strictly_sorted_by_name(r@),
{
    let mut r: Vec<PreparedField> = Vec::new();
    let ghost mut idx: Seq<int> = Seq::empty();
    let mut i: usize = 0;
    while i < v.len()
        invariant
            i <= v.len(),
            r.len() == i,
            idx.len() == i,
            forall|k: int| 0 <= k < i ==> 0 <= #[trigger] idx[k] < i && r@[k]@ == v@[idx[k]]@,
            forall|k1: int, k2: int| 0 <= k1 < k2 < i ==> #[trigger] idx[k1] != #[trigger] idx[k2],
            forall|m: int| 0 <= m < i ==> #[trigger] has_index(idx, m),
            sorted_by_name(r@),
        decreases v.len() - i,
    {
        let x = v[i].copy_field();
        let mut p: usize = 0;
        while p < r.len() && str_lt(r[p].name.as_str(), x.name.as_str())
            invariant
                p <= r.len(),
                forall|k: int| 0 <= k < p ==> seq_lt(#[trigger] r@[k].name@, x.name@),
            decreases r.len() - p,
        {
            p = p + 1;
        }
        proof {
            lemma_insert_sorted(r@, p as int, x);
        }
        let ghost old_idx = idx;
        let ghost old_r = r@;
        r.insert(p, x);
        proof {
            idx = old_idx.insert(p as int, i as int);
            assert forall|k: int| 0 <= k < i + 1 implies 0 <= #[trigger] idx[k] < i + 1 && r@[k]@ == v@[idx[k]]@ by {
                if k < p {
                    assert(idx[k] == old_idx[k] && r@[k] == old_r[k]);
                } else if k > p {
                    assert(idx[k] == old_idx[k - 1] && r@[k] == old_r[k - 1]);
                }
            }
            assert forall|k1: int, k2: int| 0 <= k1 < k2 < i + 1 implies #[trigger] idx[k1] != #[trigger] idx[k2] by {
                if k1 == p {
                    assert(idx[k2] == old_idx[k2 - 1]);
                } else if k2 == p {
                    assert(idx[k1] == old_idx[k1]);
                } else if k1 < p && k2 < p {
                    assert(idx[k1] == old_idx[k1] && idx[k2] == old_idx[k2]);
                } else if k1 < p {
                    assert(idx[k1] == old_idx[k1] && idx[k2] == old_idx[k2 - 1]);
                } else {
                    assert(idx[k1] == old_idx[k1 - 1] && idx[k2] == old_idx[k2 - 1]);
                }
            }
            assert forall|m: int| 0 <= m < i + 1 implies #[trigger] has_index(idx, m) by {
                if m == i {
                    assert(idx[p as int] == m);
                } else {
                    assert(has_index(old_idx, m));
                    let k = choose|k: int| 0 <= k < old_idx.len() && #[trigger] old_idx[k] == m;
                    if k < p {
                        assert(idx[k] == m);
                    } else {
                        assert(idx[k + 1] == m);
                    }
                }
            }
        }
        i = i + 1;
    }
    proof {
        assert forall|k: int| 0 <= k < r.len() implies has_field(v@, #[trigger] r@[k]@) by {
            assert(v@[idx[k]]@ == r@[k]@);
        }
        assert forall|m: int| 0 <= m < v.len() implies has_field(r@, #[trigger] v@[m]@) by {
            assert(has_index(idx, m));
            let k = choose|k: int| 0 <= k < idx.len() && #[trigger] idx[k] == m;
            assert(r@[k]@ == v@[m]@);
        }
        if distinct_names(v@) {
            assert forall|k1: int, k2: int| 0 <= k1 < k2 < r.len() implies seq_lt(#[trigger] r@[k1].name@, #[trigger] r@[k2].name@) by {
                assert(seq_le(r@[k1].name@, r@[k2].name@));
                assert(r@[k1].name@ == v@[idx[k1]].name@);
                assert(r@[k2].name@ == v@[idx[k2]].name@);
                if idx[k1] < idx[k2] {
                    assert(v@[idx[k1]].name@ != v@[idx[k2]].name@);
                } else {
                    assert(v@[idx[k2]].name@ != v@[idx[k1]].name@);
                }
            }
        }
    }
    r
}

/// The same fields, position by position.
pub open spec fn same_views(a: Seq<PreparedField>, b: Seq<PreparedField>) -> bool {
    a.len() == b.len() && forall|i: int| 0 <= i < a.len() ==> #[trigger] a[i]@ == b[i]@
}

pub open spec fn all_copy(s: Seq<PreparedField>) -> bool {
    forall|i: int| 0 <= i < s.len() ==> (#[trigger] s[i]).ty.is_copy
}

/// A copy of every field of `v`.
pub fn copy_fields(v: &Vec<PreparedField>) -> (r: Vec<PreparedField>)
    ensures
        same_views(r@, v@),
{
    let mut r: Vec<PreparedField> = Vec::new();
    let mut i: usize = 0;
    while i < v.len()
        invariant
            i <= v.len(),
            r.len() == i,
            forall|k: int| 0 <= k < i ==> #[trigger] r@[k]@ == v@[k]@,
        decreases v.len() - i,
    {
        r.push(v[i].copy_field());
        i = i + 1;
    }
    r
}

/// The place in `s` of a field equal to `f`, which `s` is known to hold.
fn position(s: &Vec<PreparedField>, f: &PreparedField) -> (r: usize)
    requires
        has_field(s@, f@),
    ensures
        r < s.len(),
        s@[r as int]@ == f@,
{
    let mut i: usize = 0;
    while i < s.len() && !s[i].same(f)
        invariant
            i <= s.len(),
            has_field(s@, f@),
            forall|k: int| 0 <= k < i ==> #[trigger] s@[k]@ != f@,
        decreases s.len() - i,
    {
        i = i + 1;
    }
    i
}

/// Whether `a` and `b` hold the same fields: as many, each of either among
/// the other.
pub fn same_field_lists(a: &Vec<PreparedField>, b: &Vec<PreparedField>) -> (r: bool)
    ensures
        r == same_fields(a@, b@),
{
    let mut same = a.len() == b.len();
    let mut j: usize = 0;
    while same && j < a.len()
        invariant
            j <= a.len(),
            same ==> a.len() == b.len(),
            same ==> forall|m: int| 0 <= m < j ==> has_field(b@, #[trigger] a@[m]@),
            !same ==> !same_fields(a@, b@),
        decreases a.len() - j,
    {
        let mut found = false;
        let mut m: usize = 0;
        while !found && m < b.len()
            invariant
                m <= b.len(),
                j < a.len(),
                found ==> has_field(b@, a@[j as int]@),
                !found ==> forall|x: int| 0 <= x < m ==> #[trigger] b@[x]@ != a@[j as int]@,
            decreases b.len() - m + if found { 0int } else { 1 },
        {
            if b[m].same(&a[j]) {
                found = true;
            } else {
                m = m + 1;
            }
        }
        if !found {
            assert(!has_field(b@, a@[j as int]@));
        }
        same = found;
        j = j + 1;
    }
    let mut j: usize = 0;
    while same && j < b.len()
        invariant
            j <= b.len(),
            same ==> a.len() == b.len(),
            same ==> forall|m: int| 0 <= m < a.len() ==> has_field(b@, #[trigger] a@[m]@),
            same ==> forall|m: int| 0 <= m < j ==> has_field(a@, #[trigger] b@[m]@),
            !same ==> !same_fields(a@, b@),
        decreases b.len() - j,
    {
        let mut found = false;
        let mut m: usize = 0;
        while !found && m < a.len()
            invariant
                m <= a.len(),
                j < b.len(),
                found ==> has_field(a@, b@[j as int]@),
                !found ==> forall|x: int| 0 <= x < m ==> #[trigger] a@[x]@ != b@[j as int]@,
            decreases a.len() - m + if found { 0int } else { 1 },
        {
            if a[m].same(&b[j]) {
                found = true;
            } else {
                m = m + 1;
            }
        }
        if !found {
            assert(!has_field(a@, b@[j as int]@));
        }
        same = found;
        j = j + 1;
    }
    same
}

/// A query as it will be rendered.
#[derive(Debug)]
pub struct PreparedQuery {
    pub name: String,
    /// Fields in the order of the statement's parameters.
    pub params: Vec<PreparedField>,
    /// The row's index and the permutation from the query's columns to the
    /// row's sorted fields; `None` where the query returns no column.
    pub row: Option<(usize, Vec<usize>)>,
    pub sql: String,
}

/// A params struct, shared by the queries whose parameters it holds.
#[derive(Debug)]
pub struct PreparedParams {
    pub name: String,
    pub fields: Vec<PreparedField>,
    pub queries: Vec<usize>,
}

/// A returned row.
#[derive(Debug)]
pub struct PreparedRow {
    pub name: String,
    pub fields: Vec<PreparedField>,
    pub is_copy: bool,
}

/// The prepared queries of one module, with the rows and params structs
/// they use, each table in the order in which names were first seen.
#[derive(Debug)]
pub struct PreparedModule {
    pub name: String,
    pub queries: IndexMap<String, PreparedQuery>,
    pub params: IndexMap<String, PreparedParams>,
    pub rows: IndexMap<String, PreparedRow>,
}

pub open spec fn row_wf(r: PreparedRow) -> bool {
    &&& r.fields.len() > 0
    &&& strictly_sorted_by_name(r.fields@)
    &&& r.is_copy == all_copy(r.fields@)
}

pub open spec fn query_wf(q: PreparedQuery, rows: Seq<PreparedRow>) -> bool {
    match q.row {
        Some((i, perm)) => i < rows.len() && is_permutation(perm@, rows[i as int].fields.len() as int),
        None => true,
    }
}

pub open spec fn params_wf(p: PreparedParams, queries: Seq<PreparedQuery>) -> bool {
    &&& sorted_by_name(p.fields@)
    &&& p.queries.len() > 0
    &&& forall|k: int|
        0 <= k < p.queries.len() ==> #[trigger] p.queries@[k] < queries.len() && same_fields(
            p.fields@,
            queries[p.queries@[k] as int].params@,
        )
}

impl PreparedModule {
    pub open spec fn rows_v(&self) -> Seq<PreparedRow> {
        row_entries(self.rows).map_values(|e: (Seq<char>, PreparedRow)| e.1)
    }

    pub open spec fn queries_v(&self) -> Seq<PreparedQuery> {
        query_entries(self.queries).map_values(|e: (Seq<char>, PreparedQuery)| e.1)
    }

    pub open spec fn params_v(&self) -> Seq<PreparedParams> {
        params_entries(self.params).map_values(|e: (Seq<char>, PreparedParams)| e.1)
    }

    /// Each table is keyed by the names of its values.
    pub open spec fn keyed_by_name(&self) -> bool {
        &&& forall|i: int|
            0 <= i < row_entries(self.rows).len() ==> #[trigger] row_entries(self.rows)[i].0
                == row_entries(self.rows)[i].1.name@
        &&& forall|i: int|
            0 <= i < query_entries(self.queries).len() ==> #[trigger] query_entries(self.queries)[i].0
                == query_entries(self.queries)[i].1.name@
        &&& forall|i: int|
            0 <= i < params_entries(self.params).len() ==> #[trigger] params_entries(self.params)[i].0
                == params_entries(self.params)[i].1.name@
    }

    /// Unique names in each table; sorted rows; permutations into existing
    /// rows; params structs that agree with every query that uses them.
    pub open spec fn wf(&self) -> bool {
        &&& self.keyed_by_name()
        &&& forall|i: int, j: int|
            0 <= i < j < self.rows_v().len() ==> #[trigger] self.rows_v()[i].name@ != #[trigger] self.rows_v()[j].name@
        &&& forall|i: int, j: int|
            0 <= i < j < self.queries_v().len() ==> #[trigger] self.queries_v()[i].name@
                != #[trigger] self.queries_v()[j].name@
        &&& forall|i: int, j: int|
            0 <= i < j < self.params_v().len() ==> #[trigger] self.params_v()[i].name@
                != #[trigger] self.params_v()[j].name@
        &&& forall|i: int| 0 <= i < self.rows_v().len() ==> row_wf(#[trigger] self.rows_v()[i])
        &&& forall|i: int|
            0 <= i < self.queries_v().len() ==> query_wf(#[trigger] self.queries_v()[i], self.rows_v())
        &&& forall|i: int|
            0 <= i < self.params_v().len() ==> params_wf(#[trigger] self.params_v()[i], self.queries_v())
    }

    pub fn new(name: String) -> (r: PreparedModule)
        ensures
            r.wf(),
            r.name == name,
            r.queries_v().len() == 0,
            r.params_v().len() == 0,
            r.rows_v().len() == 0,
    {
        let r = PreparedModule { name, queries: new_queries(), params: new_params(), rows: new_rows() };
        assert(r.rows_v() =~= Seq::<PreparedRow>::empty());
        assert(r.queries_v() =~= Seq::<PreparedQuery>::empty());
        assert(r.params_v() =~= Seq::<PreparedParams>::empty());
        r
    }

    /// Records the row that a query returns under `name`: a new name gets a
    /// row of the fields sorted by name; a known one must have the same
    /// fields. Gives the row's index and the permutation from `fields` to
    /// the row's order.
    pub fn add_row(&mut self, name: Located<String>, fields: Vec<PreparedField>) -> (r: Result<
        (usize, Vec<usize>),
        ValidationError,
    >)
        requires
            old(self).wf(),
            fields.len() > 0,
            distinct_names(fields@),
        ensures
            final(self).wf(),
            final(self).name == old(self).name,
            final(self).queries == old(self).queries,
            final(self).params == old(self).params,
            forall|i: int|
                0 <= i < old(self).rows_v().len() && #[trigger] old(self).rows_v()[i].name@ == name.value@
                    ==> final(self).rows == old(self).rows && if same_fields(
                    old(self).rows_v()[i].fields@,
                    fields@,
                ) {
                    r matches Ok((k, _)) && k == i
                } else {
                    r matches Err(ValidationError::NamedRowInvalidFields { expected, actual, name: n, pos })
                        && same_views(expected@, old(self).rows_v()[i].fields@) && same_views(actual@, fields@)
                        && n@ == name.value@ && pos == name.pos
                },
            (forall|i: int| 0 <= i < old(self).rows_v().len() ==> #[trigger] old(self).rows_v()[i].name@ != name.value@)
                ==> (r matches Ok((k, _)) && k == old(self).rows_v().len() && final(self).rows_v().len()
                == old(self).rows_v().len() + 1 && final(self).rows_v().subrange(0, k as int) == old(self).rows_v()
                && same_fields(final(self).rows_v()[k as int].fields@, fields@)),
            r matches Ok((k, perm)) ==> (k < final(self).rows_v().len() && final(self).rows_v()[k as int].name@
                == name.value@ && permutes(perm@, final(self).rows_v()[k as int].fields@, fields@)),
    {
        let k = match self.find_row(name.value.as_str()) {
            Some(i) => {
                let prev = &row_at(&self.rows, i).fields;
                let same = same_field_lists(prev, &fields);
                if !same {
                    return Err(ValidationError::NamedRowInvalidFields {
                        expected: copy_fields(prev),
                        actual: fields,
                        name: name.value,
                        pos: name.pos,
                    });
                }
                assert(same_fields(self.rows_v()[i as int].fields@, fields@));
                i
            },
            None => {
                let sorted = sort_by_name(&fields);
                let mut is_copy = true;
                let mut j: usize = 0;
                while j < sorted.len()
                    invariant
                        j <= sorted.len(),
                        is_copy == forall|m: int| 0 <= m < j ==> (#[trigger] sorted@[m]).ty.is_copy,
                    decreases sorted.len() - j,
                {
                    is_copy = is_copy && sorted[j].ty.is_copy;
                    j = j + 1;
                }
                let ghost before = self.rows_v();
                let index = rows_insert(
                    &mut self.rows,
                    name.value.clone(),
                    PreparedRow { name: name.value.clone(), fields: sorted, is_copy },
                );
                assert(self.rows_v() =~= before.push(self.rows_v()[index as int]));
                assert(self.rows_v().subrange(0, before.len() as int) =~= before);
                proof {
                    assert(self.queries_v() == old(self).queries_v());
                    assert(self.params_v() == old(self).params_v());
                    assert forall|q: int| 0 <= q < self.queries_v().len() implies query_wf(
                        #[trigger] self.queries_v()[q],
                        self.rows_v(),
                    ) by {
                        assert(query_wf(old(self).queries_v()[q], before));
                        if let Some((i, perm)) = self.queries_v()[q].row {
                            assert(self.rows_v()[i as int] == before[i as int]);
                        }
                    }
                    assert forall|a: int, b: int| 0 <= a < b < self.rows_v().len() implies #[trigger] self.rows_v()[a].name@
                        != #[trigger] self.rows_v()[b].name@ by {
                        if b < before.len() {
                            assert(before[a].name@ != before[b].name@);
                        } else {
                            assert(row_entries(old(self).rows)[a].0 != name.value@);
                        }
                    }
                    assert forall|a: int| 0 <= a < self.rows_v().len() implies row_wf(#[trigger] self.rows_v()[a]) by {
                        if a < before.len() {
                            assert(self.rows_v()[a] == before[a]);
                        }
                    }
                }
                assert(same_fields(self.rows_v()[before.len() as int].fields@, fields@));
                index
            },
        };
        let row = &row_at(&self.rows, k).fields;
        let mut perm: Vec<usize> = Vec::new();
        let mut j: usize = 0;
        while j < fields.len()
            invariant
                k < self.rows_v().len(),
                row == self.rows_v()[k as int].fields,
                same_fields(row@, fields@),
                j <= fields.len(),
                perm.len() == j,
                forall|x: int| 0 <= x < j ==> #[trigger] perm@[x] < row.len() && row@[perm@[x] as int]@ == fields@[x]@,
            decreases fields.len() - j,
        {
            let p = position(row, &fields[j]);
            perm.push(p);
            j = j + 1;
        }
        proof {
            assert forall|a: int, b: int| 0 <= a < b < perm.len() implies #[trigger] perm@[a] != #[trigger] perm@[b] by {
                if perm@[a] == perm@[b] {
                    assert(fields@[a]@ == fields@[b]@);
                    assert(fields@[a].name@ != fields@[b].name@);
                }
            }
        }
        Ok((k, perm))
    }

    /// Records a query under a name that no earlier query has; gives its index.
    pub fn add_query(
        &mut self,
        name: Located<String>,
        params: Vec<PreparedField>,
        row_idx: Option<(usize, Vec<usize>)>,
        sql: String,
    ) -> (r: Result<usize, ValidationError>)
        requires
            old(self).wf(),
            row_idx matches Some((i, perm)) ==> i < old(self).rows_v().len() && is_permutation(
                perm@,
                old(self).rows_v()[i as int].fields.len() as int,
            ),
        ensures
            final(self).wf(),
            final(self).name == old(self).name,
            final(self).rows == old(self).rows,
            final(self).params == old(self).params,
            (exists|i: int| 0 <= i < old(self).queries_v().len() && #[trigger] old(self).queries_v()[i].name@
                == name.value@) ==> (final(self).queries == old(self).queries
                && (r matches Err(ValidationError::QueryNameAlreadyUsed { name: n, pos }) && n@
                == name.value@ && pos == name.pos)),
            !(exists|i: int| 0 <= i < old(self).queries_v().len() && #[trigger] old(self).queries_v()[i].name@
                == name.value@) ==> (r matches Ok(k) && k == old(self).queries_v().len()
                && final(self).queries_v() == old(self).queries_v().push(
                PreparedQuery { name: name.value, params, row: row_idx, sql },
            )),
    {
        if let Some(i) = self.find_query(name.value.as_str()) {
            return Err(ValidationError::QueryNameAlreadyUsed { name: name.value, pos: name.pos });
        }
        let ghost before = self.queries_v();
        let key = name.value.clone();
        let index = queries_insert(
            &mut self.queries,
            key,
            PreparedQuery { name: name.value, params, row: row_idx, sql },
        );
        assert(self.queries_v() =~= before.push(self.queries_v()[index as int]));
        assert(self.params_v() == old(self).params_v());
        assert(self.rows_v() == old(self).rows_v());
        proof {
            assert forall|a: int, b: int| 0 <= a < b < self.queries_v().len() implies #[trigger] self.queries_v()[a].name@
                != #[trigger] self.queries_v()[b].name@ by {
                if b < before.len() {
                    assert(before[a].name@ != before[b].name@);
                } else {
                    assert(query_entries(old(self).queries)[a].0 != name.value@);
                }
            }
            assert forall|a: int| 0 <= a < self.queries_v().len() implies query_wf(#[trigger] self.queries_v()[a], self.rows_v()) by {
                if a < before.len() {
                    assert(self.queries_v()[a] == before[a]);
                }
            }
        }
        proof {
            assert forall|i: int| 0 <= i < self.params_v().len() implies params_wf(#[trigger] self.params_v()[i], self.queries_v()) by {
                let p = self.params_v()[i];
                assert(params_wf(p, before));
                assert forall|k: int| 0 <= k < p.queries.len() implies #[trigger] p.queries@[k] < self.queries_v().len() && same_fields(
                    p.fields@,
                    self.queries_v()[p.queries@[k] as int].params@,
                ) by {
                    assert(self.queries_v()[p.queries@[k] as int] == before[p.queries@[k] as int]);
                }
            }
        }
        Ok(index)
    }

    /// Records that query `query_idx` uses the params struct `name`: a new
    /// name gets the query's parameters sorted by name; a known one must
    /// have the same fields, and the query joins it. Gives the struct's index.
    pub fn add_params(&mut self, name: Located<String>, query_idx: usize) -> (r: Result<usize, ValidationError>)
        requires
            old(self).wf(),
            query_idx < old(self).queries_v().len(),
            old(self).queries_v()[query_idx as int].params.len() > 0,
        ensures
            final(self).wf(),
            final(self).name == old(self).name,
            final(self).rows == old(self).rows,
            final(self).queries == old(self).queries,
            final(self).params_v().len() >= old(self).params_v().len(),
            r matches Ok(k) ==> (k < final(self).params_v().len() && final(self).params_v()[k as int].name@
                == name.value@ && final(self).params_v()[k as int].queries@.len() > 0
                && final(self).params_v()[k as int].queries@.last() == query_idx),
            forall|i: int|
                0 <= i < old(self).params_v().len() && #[trigger] old(self).params_v()[i].name@ == name.value@
                    ==> if same_fields(
                    old(self).params_v()[i].fields@,
                    old(self).queries_v()[query_idx as int].params@,
                ) {
                    r matches Ok(k) && k == i && final(self).params_v() == old(self).params_v().update(
                        i,
                        PreparedParams {
                            queries: final(self).params_v()[i].queries,
                            ..old(self).params_v()[i]
                        },
                    ) && final(self).params_v()[i].queries@ == old(self).params_v()[i].queries@.push(
                        query_idx,
                    )
                } else {
                    final(self).params == old(self).params
                        && (r matches Err(ValidationError::NamedParamStructInvalidFields { expected, actual, name: n, pos })
                        && same_views(expected@, old(self).params_v()[i].fields@) && same_views(
                        actual@,
                        old(self).queries_v()[query_idx as int].params@,
                    ) && n@ == name.value@ && pos == name.pos)
                },
            (forall|i: int| 0 <= i < old(self).params_v().len() ==> #[trigger] old(self).params_v()[i].name@ != name.value@)
                ==> (r matches Ok(k) && k == old(self).params_v().len() && final(self).params_v().len()
                == old(self).params_v().len() + 1 && final(self).params_v().subrange(0, k as int)
                == old(self).params_v() && final(self).params_v()[k as int].name@ == name.value@
                && final(self).params_v()[k as int].queries@ == seq![query_idx] && same_fields(
                final(self).params_v()[k as int].fields@,
                old(self).queries_v()[query_idx as int].params@,
            )),
    {
        let params = &query_at(&self.queries, query_idx).params;
        match self.find_params(name.value.as_str()) {
            Some(i) => {
                let prev = &params_at(&self.params, i).fields;
                let same = same_field_lists(prev, params);
                if !same {
                    return Err(ValidationError::NamedParamStructInvalidFields {
                        expected: copy_fields(prev),
                        actual: copy_fields(params),
                        name: name.value,
                        pos: name.pos,
                    });
                }
                assert(same_fields(prev@, params@));
                let ghost before = self.params_v();
                let placeholder = PreparedParams { name: String::new(), fields: Vec::new(), queries: Vec::new() };
                let mut entry = params_replace(&mut self.params, i, placeholder);
                let ghost entry_before = entry;
                entry.queries.push(query_idx);
                let _ = params_replace(&mut self.params, i, entry);
                proof {
                    assert(self.params_v() =~= before.update(
                        i as int,
                        PreparedParams { queries: self.params_v()[i as int].queries, ..before[i as int] },
                    ));
                    assert(entry.queries@ == entry_before.queries@.push(query_idx));
                    assert(self.params_v()[i as int].queries@[entry_before.queries.len() as int] == query_idx);
                    assert forall|x: int| 0 <= x < self.params_v().len() implies params_wf(#[trigger] self.params_v()[x], self.queries_v()) by {
                        if x != i {
                            assert(self.params_v()[x] == before[x]);
                        } else {
                            let p = self.params_v()[x];
                            assert(params_wf(before[x], self.queries_v()));
                            assert forall|k: int| 0 <= k < p.queries.len() implies #[trigger] p.queries@[k] < self.queries_v().len() && same_fields(
                                p.fields@,
                                self.queries_v()[p.queries@[k] as int].params@,
                            ) by {
                                if k < p.queries.len() - 1 {
                                    assert(p.queries@[k] == before[x].queries@[k]);
                                }
                            }
                        }
                    }
                    assert forall|a: int, b: int| 0 <= a < b < self.params_v().len() implies #[trigger] self.params_v()[a].name@
                        != #[trigger] self.params_v()[b].name@ by {
                        assert(before[a].name@ != before[b].name@);
                    }
                }
                Ok(i)
            },
            None => {
                let fields = sort_by_name(params);
                let ghost before = self.params_v();
                let key = name.value.clone();
                let index = params_insert(
                    &mut self.params,
                    key,
                    PreparedParams { name: name.value, fields, queries: vec![query_idx] },
                );
                assert(self.params_v() =~= before.push(self.params_v()[index as int]));
                proof {
                    assert(self.params_v().subrange(0, index as int) =~= before);
                    assert forall|x: int| 0 <= x < self.params_v().len() implies params_wf(#[trigger] self.params_v()[x], self.queries_v()) by {
                        if x < index {
                            assert(self.params_v()[x] == before[x]);
                        } else {
                            let p = self.params_v()[x];
                            assert(p.queries@ =~= seq![query_idx]);
                            assert(p.queries@[0] == query_idx);
                            assert forall|k: int| 0 <= k < p.queries.len() implies #[trigger] p.queries@[k] < self.queries_v().len() && same_fields(
                                p.fields@,
                                self.queries_v()[p.queries@[k] as int].params@,
                            ) by {
                                assert(p.queries@[k] == query_idx);
                            }
                        }
                    }
                    assert forall|a: int, b: int| 0 <= a < b < self.params_v().len() implies #[trigger] self.params_v()[a].name@
                        != #[trigger] self.params_v()[b].name@ by {
                        if b < index {
                            assert(before[a].name@ != before[b].name@);
                        } else {
                            assert(self.params_v()[a] == before[a]);
                        }
                    }
                }
                Ok(index)
            },
        }
    }

    fn find_row(&self, name: &str) -> (r: Option<usize>)
        requires
            self.wf(),
        ensures
            r matches Some(i) ==> i < self.rows_v().len() && self.rows_v()[i as int].name@ == name@,
            r is None ==> forall|i: int| 0 <= i < self.rows_v().len() ==> #[trigger] self.rows_v()[i].name@ != name@,
            r is None ==> forall|i: int| 0 <= i < row_entries(self.rows).len() ==> #[trigger] row_entries(self.rows)[i].0 != name@,
    {
        let r = rows_index_of(&self.rows, name);
        proof {
            assert forall|i: int| 0 <= i < self.rows_v().len() implies #[trigger] self.rows_v()[i].name@
                == row_entries(self.rows)[i].0 by {}
        }
        r
    }

    fn find_query(&self, name: &str) -> (r: Option<usize>)
        requires
            self.wf(),
        ensures
            r matches Some(i) ==> i < self.queries_v().len() && self.queries_v()[i as int].name@ == name@,
            r is None ==> forall|i: int| 0 <= i < self.queries_v().len() ==> #[trigger] self.queries_v()[i].name@ != name@,
            r is None ==> forall|i: int| 0 <= i < query_entries(self.queries).len() ==> #[trigger] query_entries(self.queries)[i].0 != name@,
    {
        let r = queries_index_of(&self.queries, name);
        proof {
            assert forall|i: int| 0 <= i < self.queries_v().len() implies #[trigger] self.queries_v()[i].name@
                == query_entries(self.queries)[i].0 by {}
        }
        r
    }

    fn find_params(&self, name: &str) -> (r: Option<usize>)
        requires
            self.wf(),
        ensures
            r matches Some(i) ==> i < self.params_v().len() && self.params_v()[i as int].name@ == name@,
            r is None ==> forall|i: int| 0 <= i < self.params_v().len() ==> #[trigger] self.params_v()[i].name@ != name@,
            r is None ==> forall|i: int| 0 <= i < params_entries(self.params).len() ==> #[trigger] params_entries(self.params)[i].0 != name@,
    {
        let r = params_index_of(&self.params, name);
        proof {
            assert forall|i: int| 0 <= i < self.params_v().len() implies #[trigger] self.params_v()[i].name@
                == params_entries(self.params)[i].0 by {}
        }
        r
    }
}

/// Every row of a well-formed module, and so of every prepared module, has
/// its fields in strictly ascending name order.
pub proof fn lemma_rows_strictly_sorted(m: PreparedModule)
    requires
        m.wf(),
    ensures
        forall|i: int| 0 <= i < m.rows_v().len() ==> strictly_sorted_by_name(#[trigger] m.rows_v()[i].fields@),
{
    assert forall|i: int| 0 <= i < m.rows_v().len() implies strictly_sorted_by_name(#[trigger] m.rows_v()[i].fields@) by {
        assert(row_wf(m.rows_v()[i]));
    }
}

/// The permutation of every query that returns a row lists each position of
/// that row's fields exactly once.
pub proof fn lemma_row_permutations(m: PreparedModule)
    requires
        m.wf(),
    ensures
        forall|q: int|
            0 <= q < m.queries_v().len() ==> query_wf(#[trigger] m.queries_v()[q], m.rows_v()),
{
    assert forall|q: int| 0 <= q < m.queries_v().len() implies query_wf(#[trigger] m.queries_v()[q], m.rows_v()) by {
        assert(query_wf(m.queries_v()[q], m.rows_v()));
    }
}

/// Every params struct is used by at least one query, and each query that
/// uses it has exactly its fields as parameters.
pub proof fn lemma_params_agree(m: PreparedModule)
    requires
        m.wf(),
    ensures
        forall|p: int|
            0 <= p < m.params_v().len() ==> (#[trigger] m.params_v()[p]).queries.len() > 0 && forall|k: int|
                0 <= k < m.params_v()[p].queries.len() ==> #[trigger] m.params_v()[p].queries@[k]
                    < m.queries_v().len() && same_fields(
                    m.params_v()[p].fields@,
                    m.queries_v()[m.params_v()[p].queries@[k] as int].params@,
                ),
{
    assert forall|p: int| 0 <= p < m.params_v().len() implies (#[trigger] m.params_v()[p]).queries.len() > 0 && forall|k: int|
        0 <= k < m.params_v()[p].queries.len() ==> #[trigger] m.params_v()[p].queries@[k] < m.queries_v().len()
            && same_fields(m.params_v()[p].fields@, m.queries_v()[m.params_v()[p].queries@[k] as int].params@) by {
        assert(params_wf(m.params_v()[p], m.queries_v()));
    }
}

} // verus!
