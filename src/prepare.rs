use crate::error::{DbError, Error, ErrorVariant, ValidationError};
use crate::prepared::{distinct_names, same_views, has_field, is_permutation, same_fields, FieldView, Located, PreparedField, PreparedModule};
use crate::query::{ColumnDesc, Module, NullableColumn, NullableView, ParsedQuery, StatementDesc};
use crate::registrar::{
    clone_strings, extends, handle_for, handle_of, key_at, lemma_handle_is_unique, lemma_handle_for_extends, supported, CoreType, CustomKind,
    PgType, RegisteredType, TypeRegistrar, UnsupportedType,
};
use crate::text::{str_eq, upper_camel, upper_camel_of};
use vstd::prelude::*;

verus! {

/// The names of the columns.
pub open spec fn column_names(cols: Seq<ColumnDesc>) -> Seq<Seq<char>> {
    cols.map_values(|c: ColumnDesc| c.name@)
}

/// No name occurs twice.
pub open spec fn all_distinct(s: Seq<Seq<char>>) -> bool {
    forall|a: int, b: int| 0 <= a < b < s.len() ==> #[trigger] s[a] != #[trigger] s[b]
}

/// The place of the first name that occurred before it, if any does.
pub fn has_duplicate(names: &Vec<String>) -> (r: Option<usize>)
    ensures
        r is None <==> all_distinct(names@.map_values(|s: String| s@)),
        r matches Some(j) ==> j < names.len() && all_distinct(
            names@.subrange(0, j as int).map_values(|s: String| s@),
        ) && exists|i: int| 0 <= i < j && names@[i]@ == #[trigger] names@[j as int]@,
{
    let ghost v = names@.map_values(|s: String| s@);
    let mut j: usize = 0;
    while j < names.len()
        invariant
            j <= names.len(),
            v == names@.map_values(|s: String| s@),
            all_distinct(names@.subrange(0, j as int).map_values(|s: String| s@)),
        decreases names.len() - j,
    {
        let mut i: usize = 0;
        while i < j
            invariant
                i <= j < names.len(),
                v == names@.map_values(|s: String| s@),
                all_distinct(names@.subrange(0, j as int).map_values(|s: String| s@)),
                forall|k: int| 0 <= k < i ==> names@[k]@ != #[trigger] names@[j as int]@,
            decreases j - i,
        {
            if str_eq(names[i].as_str(), names[j].as_str()) {
                assert(v[i as int] == names@[i as int]@ && v[j as int] == names@[j as int]@);
                return Some(j);
            }
            i = i + 1;
        }
        proof {
            let w = names@.subrange(0, j + 1).map_values(|s: String| s@);
            let u = names@.subrange(0, j as int).map_values(|s: String| s@);
            assert forall|a: int, b: int| 0 <= a < b < w.len() implies #[trigger] w[a] != #[trigger] w[b] by {
                if b < j {
                    assert(w[a] == u[a] && w[b] == u[b]);
                } else {
                    assert(w[b] == names@[j as int]@);
                    assert(w[a] == names@[a]@);
                }
            }
        }
        j = j + 1;
    }
    assert(names@.subrange(0, j as int) =~= names@);
    None
}

/// The outcome of resolving nullable annotations.
pub enum Resolution {
    Names(Seq<Seq<char>>),
    BadIndex { index: usize, max_col_index: usize, pos: usize },
    BadName { name: Seq<char>, pos: usize },
    AlreadyNullable { name: Seq<char>, pos: usize },
}

/// Resolves the annotations in order: an index names the column at that
/// 1-based place, a name must be a column's; a column marked twice is an
/// error at the second mark.
pub open spec fn resolve(cols: Seq<Seq<char>>, anns: Seq<Located<NullableColumn>>) -> Resolution
    decreases anns.len(),
{
    if anns.len() == 0 {
        Resolution::Names(Seq::empty())
    } else {
        match resolve(cols, anns.drop_last()) {
            Resolution::Names(found) => {
                let a = anns.last();
                let name = match a.value@ {
                    NullableView::Index(i) => if 1 <= i <= cols.len() {
                        Some(cols[i - 1])
                    } else {
                        None
                    },
                    NullableView::Named(n) => if cols.contains(n) {
                        Some(n)
                    } else {
                        None
                    },
                };
                match name {
                    None => match a.value@ {
                        NullableView::Index(i) => Resolution::BadIndex {
                            index: i,
                            max_col_index: cols.len() as usize,
                            pos: a.pos,
                        },
                        NullableView::Named(n) => Resolution::BadName { name: n, pos: a.pos },
                    },
                    Some(n) => if found.contains(n) {
                        Resolution::AlreadyNullable { name: n, pos: a.pos }
                    } else {
                        Resolution::Names(found.push(n))
                    },
                }
            },
            other => other,
        }
    }
}

proof fn lemma_resolve_error_persists(cols: Seq<Seq<char>>, anns: Seq<Located<NullableColumn>>, m: int)
    requires
        0 <= m <= anns.len(),
        !(resolve(cols, anns.subrange(0, m)) is Names),
    ensures
        resolve(cols, anns) == resolve(cols, anns.subrange(0, m)),
    decreases anns.len() - m,
{
    if m == anns.len() {
        assert(anns.subrange(0, m) =~= anns);
    } else {
        let d = anns.drop_last();
        assert(d.subrange(0, m) =~= anns.subrange(0, m));
        lemma_resolve_error_persists(cols, d, m);
    }
}

/// `e` is the validation error that `res` describes.
pub open spec fn error_of(e: ValidationError, res: Resolution) -> bool {
    match res {
        Resolution::BadIndex { index, max_col_index, pos } => e
            == ValidationError::InvalidNullableColumnIndex { index, max_col_index, pos },
        Resolution::BadName { name, pos } => e matches ValidationError::InvalidNullableColumnName {
            name: n,
            pos: p,
        } && n@ == name && p == pos,
        Resolution::AlreadyNullable { name, pos } => e matches ValidationError::ColumnAlreadyNullable {
            name: n,
            pos: p,
        } && n@ == name && p == pos,
        Resolution::Names(_) => false,
    }
}

/// The names of the columns that the annotations mark nullable.
pub fn resolve_nullable(cols: &Vec<ColumnDesc>, anns: &Vec<Located<NullableColumn>>) -> (r: Result<
    Vec<String>,
    ValidationError,
>)
    ensures
        match r {
            Ok(v) => resolve(column_names(cols@), anns@) == Resolution::Names(
                v@.map_values(|s: String| s@),
            ),
            Err(e) => error_of(e, resolve(column_names(cols@), anns@)),
        },
{
    let ghost names = column_names(cols@);
    let mut found: Vec<String> = Vec::new();
    let mut k: usize = 0;
    assert(anns@.subrange(0, 0) =~= Seq::<Located<NullableColumn>>::empty());
    assert(found@.map_values(|s: String| s@) =~= Seq::<Seq<char>>::empty());
    while k < anns.len()
        invariant
            k <= anns.len(),
            names == column_names(cols@),
            names.len() == cols.len(),
            resolve(names, anns@.subrange(0, k as int)) == Resolution::Names(
                found@.map_values(|s: String| s@),
            ),
        decreases anns.len() - k,
    {
        let ghost pre = anns@.subrange(0, k as int);
        assert(anns@.subrange(0, k + 1).drop_last() =~= pre);
        let a = &anns[k];
        let name: String = match &a.value {
            NullableColumn::Index(i) => {
                if 1 <= *i && *i <= cols.len() {
                    cols[*i - 1].name.clone()
                } else {
                    proof {
                        lemma_resolve_error_persists(names, anns@, k + 1);
                    }
                    return Err(ValidationError::InvalidNullableColumnIndex {
                        index: *i,
                        max_col_index: cols.len(),
                        pos: a.pos,
                    });
                }
            },
            NullableColumn::Named(n) => {
                let mut m: usize = 0;
                while m < cols.len() && !str_eq(cols[m].name.as_str(), n.as_str())
                    invariant
                        m <= cols.len(),
                        names == column_names(cols@),
                        forall|x: int| 0 <= x < m ==> #[trigger] names[x] != n@,
                    decreases cols.len() - m,
                {
                    m = m + 1;
                }
                if m == cols.len() {
                    proof {
                        assert(!names.contains(n@));
                        lemma_resolve_error_persists(names, anns@, k + 1);
                    }
                    return Err(ValidationError::InvalidNullableColumnName { name: n.clone(), pos: a.pos });
                }
                assert(names[m as int] == n@);
                n.clone()
            },
        };
        let mut m: usize = 0;
        while m < found.len() && !str_eq(found[m].as_str(), name.as_str())
            invariant
                m <= found.len(),
                forall|x: int| 0 <= x < m ==> #[trigger] found@[x]@ != name@,
            decreases found.len() - m,
        {
            m = m + 1;
        }
        if m < found.len() {
            assert(found@.map_values(|s: String| s@)[m as int] == name@);
            proof {
                lemma_resolve_error_persists(names, anns@, k + 1);
            }
            return Err(ValidationError::ColumnAlreadyNullable { name, pos: a.pos });
        }
        let ghost before = found@;
        found.push(name);
        assert(found@.map_values(|s: String| s@) =~= before.map_values(|s: String| s@).push(name@));
        k = k + 1;
    }
    assert(anns@.subrange(0, k as int) =~= anns@);
    Ok(found)
}

/// `f` is the field of parameter `name`, typed by the interned `t`.
pub open spec fn param_field(reg: Seq<RegisteredType>, f: PreparedField, name: Seq<char>, t: PgType) -> bool {
    &&& f.name@ == name
    &&& handle_for(reg, f.ty, t)
    &&& !f.is_nullable
    &&& !f.is_inner_nullable
}

/// `f` is the field of column `c`, nullable exactly when `c` is marked.
pub open spec fn column_field(reg: Seq<RegisteredType>, f: PreparedField, c: ColumnDesc, nullable: Seq<Seq<char>>) -> bool {
    &&& f.name@ == c.name@
    &&& handle_for(reg, f.ty, c.ty)
    &&& f.is_nullable == nullable.contains(c.name@)
    &&& !f.is_inner_nullable
}

pub open spec fn min(a: int, b: int) -> int {
    if a < b {
        a
    } else {
        b
    }
}

/// The fields of the parameters, paired name by name with the server's
/// types, as far as both lists go.
pub fn build_params(registrar: &mut TypeRegistrar, names: &Vec<Located<String>>, types: &Vec<PgType>) -> (r: Result<Vec<PreparedField>, UnsupportedType>)
    requires
        old(registrar).wf(),
    ensures
        final(registrar).wf(),
        extends(old(registrar).types@, final(registrar).types@),
        (forall|k: int| 0 <= k < min(names.len() as int, types.len() as int) ==> supported(#[trigger] types@[k])) ==> r is Ok,
        r is Err ==> exists|k: int| 0 <= k < min(names.len() as int, types.len() as int) && !supported(#[trigger] types@[k]),
        (forall|k: int| 0 <= k < min(names.len() as int, types.len() as int) ==> #[trigger] key_at(old(registrar).types@, types@[k]) is Some)
            ==> final(registrar).types@ == old(registrar).types@,
        r matches Ok(v) ==> v.len() == min(names.len() as int, types.len() as int) && forall|k: int|
            0 <= k < v.len() ==> param_field(final(registrar).types@, #[trigger] v@[k], names@[k].value@, types@[k]),
{
    let n = if names.len() < types.len() { names.len() } else { types.len() };
    let mut v: Vec<PreparedField> = Vec::new();
    let mut k: usize = 0;
    while k < n
        invariant
            n == min(names.len() as int, types.len() as int),
            k <= n,
            v.len() == k,
            registrar.wf(),
            extends(old(registrar).types@, registrar.types@),
            forall|j: int| 0 <= j < k ==> param_field(registrar.types@, #[trigger] v@[j], names@[j].value@, types@[j]),
            (forall|k: int| 0 <= k < n ==> #[trigger] key_at(old(registrar).types@, types@[k]) is Some)
                ==> registrar.types@ == old(registrar).types@,
        decreases n - k,
    {
        let ghost before = registrar.types@;
        match registrar.register(&types[k]) {
            Ok(h) => {
                v.push(PreparedField { name: names[k].value.clone(), ty: h, is_nullable: false, is_inner_nullable: false });
                proof {
                    assert forall|j: int| 0 <= j < k + 1 implies param_field(registrar.types@, #[trigger] v@[j], names@[j].value@, types@[j]) by {
                        if j < k {
                            lemma_handle_for_extends(before, registrar.types@, v@[j].ty, types@[j]);
                        }
                    }
                    assert(forall|i: int| 0 <= i < old(registrar).types.len() ==> #[trigger] registrar.types@[i] == before[i]);
                }
            },
            Err(e) => {
                assert(forall|i: int| 0 <= i < old(registrar).types.len() ==> #[trigger] registrar.types@[i] == before[i]);
                return Err(e);
            },
        }
        k = k + 1;
    }
    Ok(v)
}

/// The fields of the result columns, in the statement's order.
pub fn build_columns(registrar: &mut TypeRegistrar, cols: &Vec<ColumnDesc>, nullable: &Vec<String>) -> (r: Result<Vec<PreparedField>, UnsupportedType>)
    requires
        old(registrar).wf(),
    ensures
        final(registrar).wf(),
        extends(old(registrar).types@, final(registrar).types@),
        (forall|k: int| 0 <= k < cols.len() ==> supported(#[trigger] cols@[k].ty)) ==> r is Ok,
        r is Err ==> exists|k: int| 0 <= k < cols.len() && !supported(#[trigger] cols@[k].ty),
        (forall|k: int| 0 <= k < cols.len() ==> #[trigger] key_at(old(registrar).types@, cols@[k].ty) is Some)
            ==> final(registrar).types@ == old(registrar).types@,
        r matches Ok(v) ==> v.len() == cols.len() && forall|k: int|
            0 <= k < v.len() ==> column_field(final(registrar).types@, #[trigger] v@[k], cols@[k], nullable@.map_values(|s: String| s@)),
{
    let ghost marked = nullable@.map_values(|s: String| s@);
    let mut v: Vec<PreparedField> = Vec::new();
    let mut k: usize = 0;
    while k < cols.len()
        invariant
            k <= cols.len(),
            v.len() == k,
            marked == nullable@.map_values(|s: String| s@),
            registrar.wf(),
            extends(old(registrar).types@, registrar.types@),
            forall|j: int| 0 <= j < k ==> column_field(registrar.types@, #[trigger] v@[j], cols@[j], marked),
            (forall|k: int| 0 <= k < cols.len() ==> #[trigger] key_at(old(registrar).types@, cols@[k].ty) is Some)
                ==> registrar.types@ == old(registrar).types@,
        decreases cols.len() - k,
    {
        let ghost before = registrar.types@;
        match registrar.register(&cols[k].ty) {
            Ok(h) => {
                let mut m: usize = 0;
                while m < nullable.len() && !str_eq(nullable[m].as_str(), cols[k].name.as_str())
                    invariant
                        m <= nullable.len(),
                        k < cols.len(),
                        marked == nullable@.map_values(|s: String| s@),
                        forall|x: int| 0 <= x < m ==> #[trigger] marked[x] != cols@[k as int].name@,
                    decreases nullable.len() - m,
                {
                    m = m + 1;
                }
                let is_nullable = m < nullable.len();
                proof {
                    if is_nullable {
                        assert(marked[m as int] == cols@[k as int].name@);
                    }
                }
                v.push(PreparedField { name: cols[k].name.clone(), ty: h, is_nullable, is_inner_nullable: false });
                proof {
                    assert forall|j: int| 0 <= j < k + 1 implies column_field(registrar.types@, #[trigger] v@[j], cols@[j], marked) by {
                        if j < k {
                            lemma_handle_for_extends(before, registrar.types@, v@[j].ty, cols@[j].ty);
                        }
                    }
                    assert(forall|i: int| 0 <= i < old(registrar).types.len() ==> #[trigger] registrar.types@[i] == before[i]);
                }
            },
            Err(e) => {
                assert(forall|i: int| 0 <= i < old(registrar).types.len() ==> #[trigger] registrar.types@[i] == before[i]);
                return Err(e);
            },
        }
        k = k + 1;
    }
    Ok(v)
}

/// The name of the row struct: the one given, else the query's name in
/// upper camel case.
pub open spec fn row_struct_name(q: ParsedQuery) -> Seq<char> {
    match q.named_return_struct {
        Some(l) => l.value@,
        None => upper_camel_of(q.name.value@),
    }
}

/// The name of the params struct: the one given, else the query's name in
/// upper camel case followed by `Params`.
pub open spec fn param_struct_name(q: ParsedQuery) -> Seq<char> {
    match q.named_param_struct {
        Some(l) => l.value@,
        None => upper_camel_of(q.name.value@) + "Params"@,
    }
}

/// Where the row struct's name stands: the given name's place, else the query's.
pub open spec fn row_struct_pos(q: ParsedQuery) -> usize {
    match q.named_return_struct {
        Some(l) => l.pos,
        None => q.name.pos,
    }
}

/// Where the params struct's name stands: the given name's place, else the query's.
pub open spec fn param_struct_pos(q: ParsedQuery) -> usize {
    match q.named_param_struct {
        Some(l) => l.pos,
        None => q.name.pos,
    }
}

fn copy_located(l: &Located<String>) -> (r: Located<String>)
    ensures
        r.value@ == l.value@,
        r.pos == l.pos,
{
    Located { value: l.value.clone(), pos: l.pos }
}

/// The row struct's name, placed where the query's name or the given one is.
pub fn row_struct_name_of(q: &ParsedQuery) -> (r: Located<String>)
    ensures
        r.value@ == row_struct_name(*q),
        r.pos == row_struct_pos(*q),
{
    match &q.named_return_struct {
        Some(l) => copy_located(l),
        None => Located { value: upper_camel(q.name.value.as_str()), pos: q.name.pos },
    }
}

/// The params struct's name, placed where the query's name or the given one is.
pub fn param_struct_name_of(q: &ParsedQuery) -> (r: Located<String>)
    ensures
        r.value@ == param_struct_name(*q),
        r.pos == param_struct_pos(*q),
{
    match &q.named_param_struct {
        Some(l) => copy_located(l),
        None => {
            let mut s = upper_camel(q.name.value.as_str());
            s.append("Params");
            Located { value: s, pos: q.name.pos }
        },
    }
}

/// The names of the columns, in order.
pub fn names_of(cols: &Vec<ColumnDesc>) -> (r: Vec<String>)
    ensures
        r@.map_values(|s: String| s@) == column_names(cols@),
{
    let mut r: Vec<String> = Vec::new();
    let mut k: usize = 0;
    while k < cols.len()
        invariant
            k <= cols.len(),
            r@.map_values(|s: String| s@) == column_names(cols@).subrange(0, k as int),
        decreases cols.len() - k,
    {
        let ghost before = r@;
        r.push(cols[k].name.clone());
        assert(r@.map_values(|s: String| s@) =~= before.map_values(|s: String| s@).push(cols@[k as int].name@));
        assert(column_names(cols@).subrange(0, k + 1) =~= column_names(cols@).subrange(0, k as int).push(cols@[k as int].name@));
        k = k + 1;
    }
    assert(column_names(cols@).subrange(0, k as int) =~= column_names(cols@));
    r
}

/// What a successful preparation added for `query`, whose statement the
/// server described as `s`: the query itself, last, with its parameters in
/// order; its row, whose fields the permutation maps onto the columns; and
/// its params struct, which now lists it.
pub open spec fn prepared_as(
    old_module: PreparedModule,
    module: PreparedModule,
    reg: Seq<RegisteredType>,
    query: ParsedQuery,
    s: StatementDesc,
    nullable: Seq<Seq<char>>,
) -> bool {
    let qi = old_module.queries_v().len() as int;
    let q = module.queries_v()[qi];
    &&& module.queries_v().len() == qi + 1
    &&& module.queries_v().subrange(0, qi) == old_module.queries_v()
    &&& module.rows_v().len() >= old_module.rows_v().len()
    &&& module.rows_v().subrange(0, old_module.rows_v().len() as int) == old_module.rows_v()
    &&& forall|i: int| old_module.rows_v().len() <= i < module.rows_v().len() ==> #[trigger] module.rows_v()[i].name@ == row_struct_name(query)
    &&& s.columns.len() == 0 ==> module.rows == old_module.rows
    &&& q.params.len() == 0 ==> module.params == old_module.params
    &&& module.params_v().len() >= old_module.params_v().len()
    &&& forall|i: int| 0 <= i < old_module.params_v().len() ==> #[trigger] module.params_v()[i].name@ == old_module.params_v()[i].name@
    &&& forall|i: int| old_module.params_v().len() <= i < module.params_v().len() ==> #[trigger] module.params_v()[i].name@ == param_struct_name(query)
    &&& q.name@ == query.name.value@
    &&& q.sql@ == query.sql_str@
    &&& q.params.len() == min(query.params.len() as int, s.params.len() as int)
    &&& forall|k: int|
        0 <= k < q.params.len() ==> param_field(reg, #[trigger] q.params@[k], query.params@[k].value@, s.params@[k])
    &&& (q.row is None <==> s.columns.len() == 0)
    &&& q.row matches Some((i, perm)) ==> {
        &&& module.rows_v()[i as int].name@ == row_struct_name(query)
        &&& is_permutation(perm@, s.columns.len() as int)
        &&& module.rows_v()[i as int].fields.len() == s.columns.len()
        &&& forall|j: int|
            0 <= j < s.columns.len() ==> column_field(
                reg,
                #[trigger] module.rows_v()[i as int].fields@[perm@[j] as int],
                s.columns@[j],
                nullable,
            )
    }
    &&& q.params.len() > 0 ==> exists|p: int|
        0 <= p < module.params_v().len() && #[trigger] module.params_v()[p].name@ == param_struct_name(query)
            && module.params_v()[p].queries@.len() > 0 && module.params_v()[p].queries@.last() == qi as usize
}

/// The field that a column of the statement becomes.
pub open spec fn column_view(reg: Seq<RegisteredType>, c: ColumnDesc, nullable: Seq<Seq<char>>) -> FieldView {
    FieldView {
        name: c.name@,
        ty: handle_of(reg, c.ty),
        is_nullable: nullable.contains(c.name@),
        is_inner_nullable: false,
    }
}

/// The field that a parameter of the statement becomes.
pub open spec fn param_view(reg: Seq<RegisteredType>, name: Seq<char>, t: PgType) -> FieldView {
    FieldView { name, ty: handle_of(reg, t), is_nullable: false, is_inner_nullable: false }
}

/// The fields that the columns become, in order.
#[verifier::opaque]
pub open spec fn column_views(cols: Seq<ColumnDesc>, reg: Seq<RegisteredType>, nullable: Seq<Seq<char>>) -> Seq<FieldView> {
    Seq::new(cols.len(), |j: int| column_view(reg, cols[j], nullable))
}

/// The fields that the first `n` parameters become, in order.
#[verifier::opaque]
pub open spec fn param_views(names: Seq<Located<String>>, types: Seq<PgType>, n: int, reg: Seq<RegisteredType>) -> Seq<FieldView> {
    Seq::new(n as nat, |j: int| param_view(reg, names[j].value@, types[j]))
}

/// `fields` holds the fields `views`: as many, each of either among the other.
pub open spec fn same_as_views(fields: Seq<PreparedField>, views: Seq<FieldView>) -> bool {
    &&& fields.len() == views.len()
    &&& forall|i: int| 0 <= i < fields.len() ==> #[trigger] views.contains(fields[i]@)
    &&& forall|j: int| 0 <= j < views.len() ==> #[trigger] has_field(fields, views[j])
}

proof fn lemma_same_fields_as_views(prev: Seq<PreparedField>, built: Seq<PreparedField>, views: Seq<FieldView>)
    requires
        built.len() == views.len(),
        forall|j: int| 0 <= j < built.len() ==> #[trigger] built[j]@ == views[j],
    ensures
        same_fields(prev, built) <==> same_as_views(prev, views),
{
    assert forall|v: FieldView| has_field(built, v) <==> views.contains(v) by {
        if has_field(built, v) {
            let m = choose|m: int| 0 <= m < built.len() && #[trigger] built[m]@ == v;
            assert(views[m] == v);
        }
        if views.contains(v) {
            let m = choose|m: int| 0 <= m < views.len() && views[m] == v;
            assert(built[m]@ == v);
        }
    }
    if same_fields(prev, built) {
        assert forall|j: int| 0 <= j < views.len() implies #[trigger] has_field(prev, views[j]) by {
            assert(has_field(prev, built[j]@));
        }
    }
    if same_as_views(prev, views) {
        assert forall|j: int| 0 <= j < built.len() implies has_field(prev, #[trigger] built[j]@) by {
            assert(has_field(prev, views[j]));
        }
    }
}

/// `j` is the first place whose name occurred before it.
pub open spec fn first_repeat_at(cols: Seq<Seq<char>>, j: int) -> bool {
    &&& 0 <= j < cols.len()
    &&& all_distinct(cols.subrange(0, j))
    &&& exists|i: int| 0 <= i < j && cols[i] == #[trigger] cols[j]
}

/// The fields of `a` are `v`, in order.
pub open spec fn views_are(a: Seq<PreparedField>, v: Seq<FieldView>) -> bool {
    a.len() == v.len() && forall|i: int| 0 <= i < a.len() ==> #[trigger] a[i]@ == v[i]
}

/// Errors raised before the module is touched.
pub open spec fn is_early(err: ErrorVariant) -> bool {
    match err {
        ErrorVariant::Validation(v) => v is InvalidNullableColumnIndex || v is InvalidNullableColumnName
            || v is ColumnAlreadyNullable,
        _ => true,
    }
}

/// `r` failed with the validation error that `res` describes.
pub open spec fn fails_as(r: Result<(), Error>, res: Resolution) -> bool {
    match r {
        Err(e) => match e.err {
            ErrorVariant::Validation(v) => error_of(v, res),
            _ => false,
        },
        Ok(_) => false,
    }
}

/// Why the steps before the module is touched failed with `err`.
pub open spec fn early_cause(err: ErrorVariant, query: ParsedQuery, s: StatementDesc) -> bool {
    let cols = column_names(s.columns@);
    let n = min(query.params.len() as int, s.params.len() as int);
    match err {
        ErrorVariant::Db(_) => false,
        ErrorVariant::PostgresType(_) => (exists|k: int| 0 <= k < n && !supported(#[trigger] s.params@[k]))
            || (exists|k: int| 0 <= k < s.columns.len() && !supported(#[trigger] s.columns@[k].ty)),
        ErrorVariant::ColumnNameAlreadyTaken { name } => exists|j: int| first_repeat_at(cols, j) && #[trigger] cols[j] == name@,
        ErrorVariant::Validation(v) => (v is InvalidNullableColumnIndex || v is InvalidNullableColumnName
            || v is ColumnAlreadyNullable) && all_distinct(cols) && error_of(v, resolve(cols, query.nullable_columns@)),
    }
}

/// Why preparing `query` against `module` failed with `err`, when the
/// server had described its statement as `s` and `reg` is the registrar after.
pub open spec fn failure_cause(
    err: ErrorVariant,
    module: PreparedModule,
    query: ParsedQuery,
    s: StatementDesc,
    reg: Seq<RegisteredType>,
) -> bool {
    let cols = column_names(s.columns@);
    let n = min(query.params.len() as int, s.params.len() as int);
    let nullable = resolve(cols, query.nullable_columns@)->Names_0;
    if is_early(err) {
        early_cause(err, query, s)
    } else {
    match err {
        ErrorVariant::Db(_) => false,
        ErrorVariant::Validation(v) => match v {
            ValidationError::NamedRowInvalidFields { expected, actual, name, pos } => {
                &&& name@ == row_struct_name(query)
                &&& pos == row_struct_pos(query)
                &&& views_are(actual@, column_views(s.columns@, reg, nullable))
                &&& exists|i: int|
                    0 <= i < module.rows_v().len() && #[trigger] module.rows_v()[i].name@ == row_struct_name(query)
                        && same_views(expected@, module.rows_v()[i].fields@)
                        && !same_as_views(module.rows_v()[i].fields@, column_views(s.columns@, reg, nullable))
            },
            ValidationError::QueryNameAlreadyUsed { name, pos } => {
                &&& name@ == query.name.value@
                &&& pos == query.name.pos
                &&& exists|i: int|
                    0 <= i < module.queries_v().len() && #[trigger] module.queries_v()[i].name@ == query.name.value@
            },
            ValidationError::NamedParamStructInvalidFields { expected, actual, name, pos } => {
                &&& name@ == param_struct_name(query)
                &&& pos == param_struct_pos(query)
                &&& views_are(actual@, param_views(query.params@, s.params@, n, reg))
                &&& exists|i: int|
                    0 <= i < module.params_v().len() && #[trigger] module.params_v()[i].name@ == param_struct_name(query)
                        && same_views(expected@, module.params_v()[i].fields@)
                        && !same_as_views(module.params_v()[i].fields@, param_views(query.params@, s.params@, n, reg))
            },
            _ => false,
        },
        _ => false,
    }
    }
}

/// The fields of a query's parameters and columns, and the names of the
/// columns marked nullable: the steps of preparation that come before the
/// module is touched, in order.
pub fn build_fields(registrar: &mut TypeRegistrar, query: &ParsedQuery, s: &StatementDesc) -> (r: Result<
    (Vec<PreparedField>, Vec<PreparedField>, Vec<String>),
    ErrorVariant,
>)
    requires
        old(registrar).wf(),
    ensures
        ({
            let cols = column_names(s.columns@);
            let n = min(query.params.len() as int, s.params.len() as int);
            let reg = final(registrar).types@;
            let params_ok = forall|k: int| 0 <= k < n ==> supported(#[trigger] s.params@[k]);
            &&& final(registrar).wf()
            &&& extends(old(registrar).types@, reg)
            &&& ((forall|k: int| 0 <= k < n ==> #[trigger] key_at(old(registrar).types@, s.params@[k]) is Some)
                && (forall|k: int| 0 <= k < s.columns.len() ==> #[trigger] key_at(old(registrar).types@, s.columns@[k].ty) is Some))
                ==> reg == old(registrar).types@
            &&& (params_ok && !all_distinct(cols)) ==> (r matches Err(e) && e is ColumnNameAlreadyTaken)
            &&& (params_ok && all_distinct(cols) && !(resolve(cols, query.nullable_columns@) is Names))
                ==> (r matches Err(ErrorVariant::Validation(v)) && error_of(v, resolve(cols, query.nullable_columns@)))
            &&& (params_ok && (forall|k: int| 0 <= k < s.columns.len() ==> supported(#[trigger] s.columns@[k].ty))
                && all_distinct(cols) && resolve(cols, query.nullable_columns@) is Names) ==> r is Ok
            &&& r matches Err(e) ==> is_early(e) && !(e is Db) && early_cause(e, *query, *s)
            &&& r matches Ok((p, c, nl)) ==> {
                &&& all_distinct(cols)
                &&& resolve(cols, query.nullable_columns@) == Resolution::Names(nl@.map_values(|x: String| x@))
                &&& p.len() == n
                &&& c.len() == s.columns.len()
                &&& forall|k: int| 0 <= k < n ==> param_field(reg, #[trigger] p@[k], query.params@[k].value@, s.params@[k])
                &&& forall|k: int| 0 <= k < c.len() ==> column_field(reg, #[trigger] c@[k], s.columns@[k], nl@.map_values(|x: String| x@))
                &&& distinct_names(c@)
                &&& views_are(p@, param_views(query.params@, s.params@, n, reg))
                &&& views_are(c@, column_views(s.columns@, reg, nl@.map_values(|x: String| x@)))
            }
        }),
{
    let ghost cols = column_names(s.columns@);
    let ghost n = min(query.params.len() as int, s.params.len() as int);
    let params = match build_params(registrar, &query.params, &s.params) {
        Ok(p) => p,
        Err(e) => {
            return Err(ErrorVariant::PostgresType(e));
        },
    };
    let col_names = names_of(&s.columns);
    if let Some(j) = has_duplicate(&col_names) {
        proof {
            let i = choose|i: int| 0 <= i < j && col_names@[i]@ == #[trigger] col_names@[j as int]@;
            assert(cols[i] == col_names@[i]@ && cols[j as int] == col_names@[j as int]@);
            assert(cols.subrange(0, j as int) =~= col_names@.subrange(0, j as int).map_values(|s: String| s@));
            assert(first_repeat_at(cols, j as int));
        }
        return Err(ErrorVariant::ColumnNameAlreadyTaken { name: col_names[j].clone() });
    }
    let nullable = match resolve_nullable(&s.columns, &query.nullable_columns) {
        Ok(v) => v,
        Err(e) => {
            return Err(ErrorVariant::Validation(e));
        },
    };
    let ghost reg_mid = registrar.types@;
    let row_fields = match build_columns(registrar, &s.columns, &nullable) {
        Ok(f) => f,
        Err(e) => {
            return Err(ErrorVariant::PostgresType(e));
        },
    };
    proof {
        assert forall|k: int| 0 <= k < params.len() implies param_field(registrar.types@, #[trigger] params@[k], query.params@[k].value@, s.params@[k]) by {
            lemma_handle_for_extends(reg_mid, registrar.types@, params@[k].ty, s.params@[k]);
        }
        assert forall|a: int, b: int| 0 <= a < b < row_fields.len() implies #[trigger] row_fields@[a].name@ != #[trigger] row_fields@[b].name@ by {
            assert(cols[a] == row_fields@[a].name@ && cols[b] == row_fields@[b].name@);
        }
    }
    let ghost nullable_names = nullable@.map_values(|s: String| s@);
    let ghost col_views = column_views(s.columns@, registrar.types@, nullable_names);
    let ghost par_views = param_views(query.params@, s.params@, params@.len() as int, registrar.types@);
    proof {
        reveal(column_views);
        reveal(param_views);
        assert forall|j: int| 0 <= j < row_fields.len() implies #[trigger] row_fields@[j]@ == col_views[j] by {
            lemma_handle_is_unique(*registrar, s.columns@[j].ty, row_fields@[j].ty);
        }
        assert forall|j: int| 0 <= j < params.len() implies #[trigger] params@[j]@ == par_views[j] by {
            lemma_handle_is_unique(*registrar, s.params@[j], params@[j].ty);
        }
    }
    proof {
        reveal(column_views);
        reveal(param_views);
        assert forall|j: int| 0 <= j < row_fields.len() implies #[trigger] row_fields@[j]@ == column_views(s.columns@, registrar.types@, nullable@.map_values(|x: String| x@))[j] by {
            lemma_handle_is_unique(*registrar, s.columns@[j].ty, row_fields@[j].ty);
        }
        assert forall|j: int| 0 <= j < params.len() implies #[trigger] params@[j]@ == param_views(query.params@, s.params@, n, registrar.types@)[j] by {
            lemma_handle_is_unique(*registrar, s.params@[j], params@[j].ty);
        }
    }
    Ok((params, row_fields, nullable))
}

/// Prepares one query into `module`, given what the server answered when
/// asked to prepare its SQL.
pub fn prepare_query(
    module: &mut PreparedModule,
    registrar: &mut TypeRegistrar,
    query: &ParsedQuery,
    file_path: &str,
    stmt: Result<StatementDesc, DbError>,
) -> (r: Result<(), Error>)
    requires
        old(module).wf(),
        old(registrar).wf(),
    ensures
        final(module).wf(),
        final(module).name == old(module).name,
        final(registrar).wf(),
        extends(old(registrar).types@, final(registrar).types@),
        r matches Err(e) ==> e.query_name@ == query.name.value@ && e.query_start_line == Some(query.line)
            && e.path@ == file_path@,
        stmt matches Err(d) ==> (r matches Err(e) && e.err == ErrorVariant::Db(d)),
        (r matches Err(e) && e.err is Db) ==> stmt is Err,
        stmt is Err ==> *final(registrar) == *old(registrar),
        (r matches Err(e) && is_early(e.err)) ==> *final(module) == *old(module),
        stmt matches Ok(s) ==> {
            let cols = column_names(s.columns@);
            let n = min(query.params.len() as int, s.params.len() as int);
            let nullable = resolve(cols, query.nullable_columns@)->Names_0;
            let reg = final(registrar).types@;
            let params_ok = forall|k: int| 0 <= k < n ==> supported(#[trigger] s.params@[k]);
            &&& r matches Err(e) ==> failure_cause(e.err, *old(module), *query, s, reg)
            &&& (params_ok && !all_distinct(cols)) ==> (r matches Err(e) && e.err is ColumnNameAlreadyTaken)
            &&& (params_ok && all_distinct(cols) && !(resolve(cols, query.nullable_columns@) is Names))
                ==> fails_as(r, resolve(cols, query.nullable_columns@))
            &&& ((forall|k: int| 0 <= k < n ==> #[trigger] key_at(old(registrar).types@, s.params@[k]) is Some)
                && (forall|k: int| 0 <= k < s.columns.len() ==> #[trigger] key_at(old(registrar).types@, s.columns@[k].ty) is Some))
                ==> final(registrar).types@ == old(registrar).types@
            &&& ((forall|k: int| 0 <= k < n ==> supported(#[trigger] s.params@[k]))
                && (forall|k: int| 0 <= k < s.columns.len() ==> supported(#[trigger] s.columns@[k].ty))
                && all_distinct(cols) && resolve(cols, query.nullable_columns@) is Names
                && (s.columns.len() > 0 ==> forall|i: int| 0 <= i < old(module).rows_v().len() && #[trigger] old(module).rows_v()[i].name@ == row_struct_name(*query)
                    ==> same_as_views(old(module).rows_v()[i].fields@, column_views(s.columns@, reg, nullable)))
                && (forall|i: int| 0 <= i < old(module).queries_v().len() ==> #[trigger] old(module).queries_v()[i].name@ != query.name.value@)
                && (n > 0 ==> forall|i: int| 0 <= i < old(module).params_v().len() && #[trigger] old(module).params_v()[i].name@ == param_struct_name(*query)
                    ==> same_as_views(old(module).params_v()[i].fields@, param_views(query.params@, s.params@, n, reg))))
                ==> r is Ok
            &&& r is Ok ==> prepared_as(*old(module), *final(module), reg, *query, s, nullable)
        },
{
    let s = match stmt {
        Ok(s) => s,
        Err(e) => {
            return Err(Error::new(ErrorVariant::Db(e), query, file_path));
        },
    };
    let ghost cols = column_names(s.columns@);
    let (params, row_fields, nullable) = match build_fields(registrar, query, &s) {
        Ok(built) => built,
        Err(e) => {
            return Err(Error::new(e, query, file_path));
        },
    };
    let ghost nullable_names = nullable@.map_values(|s: String| s@);
    let ghost col_views = column_views(s.columns@, registrar.types@, nullable_names);
    let ghost par_views = param_views(query.params@, s.params@, params@.len() as int, registrar.types@);
    let row_name = row_struct_name_of(query);
    let param_name = param_struct_name_of(query);
    let ghost columns = row_fields@;
    let row_fields_len = row_fields.len();
    let row_idx = if row_fields.len() > 0 {
        match module.add_row(row_name, row_fields) {
            Ok(idx) => Some(idx),
            Err(e) => {
                proof {
                    let rows = old(module).rows_v();
                    assert(exists|i: int| 0 <= i < rows.len() && #[trigger] rows[i].name@ == row_struct_name(*query));
                    let i = choose|i: int| 0 <= i < rows.len() && #[trigger] rows[i].name@ == row_struct_name(*query);
                    lemma_same_fields_as_views(rows[i].fields@, columns, col_views);
                }
                return Err(Error::new(ErrorVariant::Validation(e), query, file_path));
            },
        }
    } else {
        None
    };
    let params_not_empty = params.len() > 0;
    let ghost params_seq = params@;
    let ghost m1 = *module;
    assert(m1.queries_v() == old(module).queries_v());
    assert(m1.params_v() == old(module).params_v());
    let query_idx = match module.add_query(copy_located(&query.name), params, row_idx, query.sql_str.clone()) {
        Ok(i) => i,
        Err(e) => {
            return Err(Error::new(ErrorVariant::Validation(e), query, file_path));
        },
    };
    let ghost m2 = *module;
    if params_not_empty {
        match module.add_params(param_name, query_idx) {
            Ok(k) => {
                assert(module.queries_v()[query_idx as int] == m2.queries_v()[query_idx as int]);
                assert(module.params_v()[k as int].name@ == param_struct_name(*query));
            },
            Err(e) => {
                proof {
                    let ps = old(module).params_v();
                    assert(m2.params_v() == ps);
                    assert(m2.queries_v()[query_idx as int].params@ == params_seq);
                    assert(exists|i: int| 0 <= i < ps.len() && #[trigger] ps[i].name@ == param_struct_name(*query));
                    let i = choose|i: int| 0 <= i < ps.len() && #[trigger] ps[i].name@ == param_struct_name(*query);
                    lemma_same_fields_as_views(ps[i].fields@, params_seq, par_views);
                }
                return Err(Error::new(ErrorVariant::Validation(e), query, file_path));
            },
        }
    }
    proof {
        let qi = old(module).queries_v().len() as int;
        assert(m2.queries_v()[qi].params == params);
        assert(module.queries_v().subrange(0, qi) =~= old(module).queries_v());
        assert(module.queries_v()[qi] == m2.queries_v()[qi]);
        let r0 = old(module).rows_v();
        let p0 = old(module).params_v();
        assert(module.rows == m1.rows);
        assert(module.rows_v() == m1.rows_v());
        assert(m2.params_v() == p0);
        if row_fields_len > 0 {
            if exists|i: int| 0 <= i < r0.len() && #[trigger] r0[i].name@ == row_struct_name(*query) {
                let i = choose|i: int| 0 <= i < r0.len() && #[trigger] r0[i].name@ == row_struct_name(*query);
                assert(m1.rows == old(module).rows);
                assert(m1.rows_v() == r0);
            }
            assert(module.rows_v().subrange(0, r0.len() as int) =~= r0);
        } else {
            assert(module.rows_v() == r0);
            assert(module.rows_v().subrange(0, r0.len() as int) =~= r0);
        }
        if params_not_empty {
            if exists|i: int| 0 <= i < p0.len() && #[trigger] p0[i].name@ == param_struct_name(*query) {
                let i = choose|i: int| 0 <= i < p0.len() && #[trigger] p0[i].name@ == param_struct_name(*query);
                assert(module.params_v().len() == p0.len());
                assert forall|x: int| 0 <= x < p0.len() implies #[trigger] module.params_v()[x].name@ == p0[x].name@ by {
                    if x != i {
                        assert(module.params_v()[x] == p0[x]);
                    }
                }
            } else {
                assert forall|x: int| 0 <= x < p0.len() implies #[trigger] module.params_v()[x].name@ == p0[x].name@ by {
                    assert(module.params_v().subrange(0, p0.len() as int)[x] == p0[x]);
                }
            }
        }
        if row_fields_len > 0 {
            let (i, perm) = row_idx->0;
            assert forall|j: int| 0 <= j < s.columns.len() implies column_field(
                registrar.types@,
                #[trigger] module.rows_v()[i as int].fields@[perm@[j] as int],
                s.columns@[j],
                resolve(cols, query.nullable_columns@)->Names_0,
            ) by {
                assert(module.rows_v()[i as int].fields@[perm@[j] as int]@ == columns[j]@);
            }
        }
    }
    Ok(())
}

/// A query that passes every check that does not depend on other queries:
/// the server accepted it, its types are supported, its columns have
/// distinct names and its annotations resolve.
pub open spec fn query_valid(q: ParsedQuery, st: Result<StatementDesc, DbError>) -> bool {
    match st {
        Ok(s) => {
            let cols = column_names(s.columns@);
            let n = min(q.params.len() as int, s.params.len() as int);
            &&& forall|k: int| 0 <= k < n ==> supported(#[trigger] s.params@[k])
            &&& forall|k: int| 0 <= k < s.columns.len() ==> supported(#[trigger] s.columns@[k].ty)
            &&& all_distinct(cols)
            &&& resolve(cols, q.nullable_columns@) is Names
        },
        Err(_) => false,
    }
}

/// Every query is valid, and no two queries share a name, a row struct
/// name or a params struct name.
pub open spec fn module_valid(module: Module, stmts: Seq<Result<StatementDesc, DbError>>) -> bool {
    &&& stmts.len() == module.queries.len()
    &&& forall|k: int| 0 <= k < stmts.len() ==> query_valid(module.queries@[k], #[trigger] stmts[k])
    &&& forall|i: int, j: int|
        0 <= i < j < module.queries.len() ==> {
            &&& #[trigger] module.queries@[i].name.value@ != #[trigger] module.queries@[j].name.value@
            &&& row_struct_name(module.queries@[i]) != row_struct_name(module.queries@[j])
            &&& param_struct_name(module.queries@[i]) != param_struct_name(module.queries@[j])
        }
}

/// What a prepared module holds for the parsed `module`: its name, and its
/// queries in source order with their SQL.
pub open spec fn module_prepared_as(m: PreparedModule, module: Module) -> bool {
    &&& m.wf()
    &&& m.name@ == module.name@
    &&& m.queries_v().len() == module.queries.len()
    &&& forall|k: int| 0 <= k < m.queries_v().len() ==> #[trigger] query_from(m, module, k)
}

/// Query `j` of `m` was prepared from query `j` of `module`.
pub open spec fn query_from(m: PreparedModule, module: Module, j: int) -> bool {
    m.queries_v()[j].name@ == module.queries@[j].name.value@ && m.queries_v()[j].sql@ == module.queries@[j].sql_str@
}

/// `e` is the error of query `k` of `module`, every earlier answer having
/// been a prepared statement.
pub open spec fn fails_at(e: Error, module: Module, stmts: Seq<Result<StatementDesc, DbError>>, k: int) -> bool {
    &&& 0 <= k < module.queries.len()
    &&& module.queries@[k].name.value@ == e.query_name@
    &&& e.query_start_line == Some(module.queries@[k].line)
    &&& e.path@ == module.path@
    &&& forall|j: int| 0 <= j < k ==> #[trigger] stmts[j] is Ok
    &&& (e.err is Db <==> stmts[k] is Err)
    &&& stmts[k] matches Err(d) ==> e.err == ErrorVariant::Db(d)
}

/// Prepares the queries of `module` in source order, given the server's
/// answer for each query's SQL, in the same order; stops at the first error.
pub fn prepare_module(
    registrar: &mut TypeRegistrar,
    module: &Module,
    stmts: Vec<Result<StatementDesc, DbError>>,
) -> (r: Result<PreparedModule, Error>)
    requires
        old(registrar).wf(),
        stmts.len() == module.queries.len(),
    ensures
        final(registrar).wf(),
        extends(old(registrar).types@, final(registrar).types@),
        module_valid(*module, stmts@) ==> r is Ok,
        r matches Ok(m) ==> module_prepared_as(m, *module),
        r matches Err(e) ==> exists|k: int| fails_at(e, *module, stmts@, k),
{
    let ghost all = stmts@;
    let mut pending = stmts;
    let mut prepared = PreparedModule::new(module.name.clone());
    let mut k: usize = 0;
    while k < module.queries.len()
        invariant
            k <= module.queries.len(),
            all.len() == module.queries.len(),
            all == stmts@,
            pending@ == all.subrange(k as int, all.len() as int),
            prepared.wf(),
            prepared.name@ == module.name@,
            prepared.queries_v().len() == k,
            forall|j: int| 0 <= j < k ==> #[trigger] query_from(prepared, *module, j),
            forall|j: int| 0 <= j < k ==> #[trigger] all[j] is Ok,
            module_valid(*module, all) ==> forall|i: int| 0 <= i < prepared.rows_v().len() ==> exists|j: int|
                0 <= j < k && #[trigger] prepared.rows_v()[i].name@ == row_struct_name(module.queries@[j]),
            module_valid(*module, all) ==> forall|i: int| 0 <= i < prepared.params_v().len() ==> exists|j: int|
                0 <= j < k && #[trigger] prepared.params_v()[i].name@ == param_struct_name(module.queries@[j]),
            registrar.wf(),
            extends(old(registrar).types@, registrar.types@),
        decreases module.queries.len() - k,
    {
        let stmt = pending.remove(0);
        assert(stmt == all[k as int]);
        assert(pending@ =~= all.subrange(k + 1, all.len() as int));
        let ghost before = prepared;
        let ghost reg_before = registrar.types@;
        let ghost q = module.queries@[k as int];
        proof {
            if module_valid(*module, all) {
                assert(query_valid(q, all[k as int]));
                assert forall|i: int| 0 <= i < before.queries_v().len() implies #[trigger] before.queries_v()[i].name@ != q.name.value@ by {
                    assert(query_from(before, *module, i));
                }
                assert forall|i: int| 0 <= i < before.rows_v().len() implies #[trigger] before.rows_v()[i].name@ != row_struct_name(q) by {
                    let j = choose|j: int| 0 <= j < k && #[trigger] before.rows_v()[i].name@ == row_struct_name(module.queries@[j]);
                    assert(row_struct_name(module.queries@[j]) != row_struct_name(module.queries@[k as int]));
                }
                assert forall|i: int| 0 <= i < before.params_v().len() implies #[trigger] before.params_v()[i].name@ != param_struct_name(q) by {
                    let j = choose|j: int| 0 <= j < k && #[trigger] before.params_v()[i].name@ == param_struct_name(module.queries@[j]);
                    assert(param_struct_name(module.queries@[j]) != param_struct_name(module.queries@[k as int]));
                }
            }
        }
        let res = prepare_query(&mut prepared, registrar, &module.queries[k], module.path.as_str(), stmt);
        assert(forall|i: int| 0 <= i < old(registrar).types.len() ==> #[trigger] registrar.types@[i] == reg_before[i]);
        match res {
            Ok(()) => {
                assert(all[k as int] is Ok);
                assert(prepared.queries_v().subrange(0, k as int) == before.queries_v());
                assert forall|j: int| 0 <= j < k + 1 implies #[trigger] query_from(prepared, *module, j) by {
                    if j < k {
                        assert(prepared.queries_v().subrange(0, k as int)[j] == before.queries_v()[j]);
                        assert(prepared.queries_v()[j] == before.queries_v()[j]);
                        assert(query_from(before, *module, j));
                    }
                }
                proof {
                    if module_valid(*module, all) {
                        assert forall|i: int| 0 <= i < prepared.rows_v().len() implies exists|j: int|
                            0 <= j < k + 1 && #[trigger] prepared.rows_v()[i].name@ == row_struct_name(module.queries@[j]) by {
                            if i < before.rows_v().len() {
                                assert(prepared.rows_v().subrange(0, before.rows_v().len() as int)[i] == before.rows_v()[i]);
                                let j = choose|j: int| 0 <= j < k && #[trigger] before.rows_v()[i].name@ == row_struct_name(module.queries@[j]);
                                assert(prepared.rows_v()[i].name@ == row_struct_name(module.queries@[j]));
                            } else {
                                assert(prepared.rows_v()[i].name@ == row_struct_name(module.queries@[k as int]));
                            }
                        }
                        assert forall|i: int| 0 <= i < prepared.params_v().len() implies exists|j: int|
                            0 <= j < k + 1 && #[trigger] prepared.params_v()[i].name@ == param_struct_name(module.queries@[j]) by {
                            if i < before.params_v().len() {
                                let j = choose|j: int| 0 <= j < k && #[trigger] before.params_v()[i].name@ == param_struct_name(module.queries@[j]);
                                assert(prepared.params_v()[i].name@ == param_struct_name(module.queries@[j]));
                            } else {
                                assert(prepared.params_v()[i].name@ == param_struct_name(module.queries@[k as int]));
                            }
                        }
                    }
                }
            },
            Err(e) => {
                assert(stmts@[k as int] == all[k as int]);
                assert(fails_at(e, *module, stmts@, k as int));
                return Err(e);
            },
        }
        k = k + 1;
    }
    Ok(prepared)
}

/// A type that the server defines, in the shape the renderer declares it.
#[derive(Debug)]
pub enum PreparedType {
    Enum(Vec<String>),
    Domain(PreparedField),
    Composite(Vec<PreparedField>),
}

/// A declared type under its `(schema, name)` key.
#[derive(Debug)]
pub struct PreparedTypeEntry {
    pub schema: String,
    pub name: String,
    pub ty: PreparedType,
}

/// Enums, domains and composites: the interned types that get a declaration.
pub open spec fn is_declared(t: RegisteredType) -> bool {
    t.ty matches CoreType::Custom { kind, .. } && !(kind is Array)
}

/// The declared types among `reg`, in registration order.
pub open spec fn declared(reg: Seq<RegisteredType>) -> Seq<RegisteredType>
    decreases reg.len(),
{
    if reg.len() == 0 {
        reg
    } else if is_declared(reg.last()) {
        declared(reg.drop_last()).push(reg.last())
    } else {
        declared(reg.drop_last())
    }
}

/// `e` declares the interned type `t`.
pub open spec fn declares(e: PreparedTypeEntry, t: RegisteredType) -> bool {
    &&& e.schema@ == t.schema@
    &&& e.name@ == t.name@
    &&& match t.ty {
        CoreType::Custom { kind: CustomKind::Enum(vs), .. } => e.ty matches PreparedType::Enum(ws) && ws@ == vs@,
        CoreType::Custom { kind: CustomKind::Domain(h), .. } => e.ty matches PreparedType::Domain(f)
            && f@ == (FieldView { name: "inner"@, ty: h, is_nullable: false, is_inner_nullable: false }),
        CoreType::Custom { kind: CustomKind::Composite(cs), .. } => e.ty matches PreparedType::Composite(fs)
            && fs.len() == cs.len() && forall|j: int| 0 <= j < fs.len() ==> #[trigger] fs@[j]@ == (FieldView {
                name: cs@[j].name@,
                ty: cs@[j].ty,
                is_nullable: false,
                is_inner_nullable: false,
            }),
        _ => false,
    }
}

/// A declaration for each enum, domain and composite type of the registrar,
/// in registration order.
pub fn prepared_types(registrar: &TypeRegistrar) -> (r: Vec<PreparedTypeEntry>)
    ensures
        r.len() == declared(registrar.types@).len(),
        forall|k: int| 0 <= k < r.len() ==> declares(#[trigger] r@[k], declared(registrar.types@)[k]),
{
    let types = &registrar.types;
    let mut r: Vec<PreparedTypeEntry> = Vec::new();
    let mut i: usize = 0;
    while i < types.len()
        invariant
            i <= types.len(),
            r.len() == declared(types@.subrange(0, i as int)).len(),
            forall|k: int| 0 <= k < r.len() ==> declares(#[trigger] r@[k], declared(types@.subrange(0, i as int))[k]),
        decreases types.len() - i,
    {
        let ghost before = r@;
        let ghost prefix = types@.subrange(0, i as int);
        assert(types@.subrange(0, i + 1).drop_last() =~= prefix);
        let t = &types[i];
        match &t.ty {
            CoreType::Custom { kind, .. } => {
                let ty = match kind {
                    CustomKind::Enum(vs) => Some(PreparedType::Enum(clone_strings(vs))),
                    CustomKind::Domain(h) => Some(
                        PreparedType::Domain(
                            PreparedField {
                                name: String::from_str("inner"),
                                ty: *h,
                                is_nullable: false,
                                is_inner_nullable: false,
                            },
                        ),
                    ),
                    CustomKind::Composite(cs) => {
                        let mut fs: Vec<PreparedField> = Vec::new();
                        let mut j: usize = 0;
                        while j < cs.len()
                            invariant
                                j <= cs.len(),
                                fs.len() == j,
                                forall|x: int| 0 <= x < j ==> #[trigger] fs@[x]@ == (FieldView {
                                    name: cs@[x].name@,
                                    ty: cs@[x].ty,
                                    is_nullable: false,
                                    is_inner_nullable: false,
                                }),
                            decreases cs.len() - j,
                        {
                            fs.push(PreparedField {
                                name: cs[j].name.clone(),
                                ty: cs[j].ty,
                                is_nullable: false,
                                is_inner_nullable: false,
                            });
                            j = j + 1;
                        }
                        Some(PreparedType::Composite(fs))
                    },
                    CustomKind::Array(_) => None,
                };
                if let Some(ty) = ty {
                    r.push(PreparedTypeEntry { schema: t.schema.clone(), name: t.name.clone(), ty });
                    assert forall|k: int| 0 <= k < r.len() implies declares(#[trigger] r@[k], declared(types@.subrange(0, i + 1))[k]) by {
                        if k < before.len() {
                            assert(r@[k] == before[k]);
                        }
                    }
                }
            },
            CoreType::Simple { .. } => {},
        }
        i = i + 1;
    }
    assert(types@.subrange(0, i as int) =~= types@);
    r
}

/// Prepares every module, each with the server's answers for its queries,
/// then lists the declared types that the queries use.
pub fn prepare(
    registrar: &mut TypeRegistrar,
    modules: &Vec<Module>,
    stmts: Vec<Vec<Result<StatementDesc, DbError>>>,
) -> (r: Result<(Vec<PreparedModule>, Vec<PreparedTypeEntry>), Error>)
    requires
        old(registrar).wf(),
        stmts.len() == modules.len(),
        forall|k: int| 0 <= k < modules.len() ==> (#[trigger] stmts@[k]).len() == modules@[k].queries.len(),
    ensures
        final(registrar).wf(),
        extends(old(registrar).types@, final(registrar).types@),
        (forall|k: int| 0 <= k < modules.len() ==> module_valid(#[trigger] modules@[k], stmts@[k]@)) ==> r is Ok,
        r matches Err(e) ==> exists|k: int, i: int| 0 <= k < modules.len() && #[trigger] fails_at(e, modules@[k], stmts@[k]@, i),
        r matches Ok((ms, ts)) ==> {
            &&& ms.len() == modules.len()
            &&& forall|k: int| 0 <= k < ms.len() ==> module_prepared_as(#[trigger] ms@[k], modules@[k])
            &&& ts.len() == declared(final(registrar).types@).len()
            &&& forall|k: int| 0 <= k < ts.len() ==> declares(#[trigger] ts@[k], declared(final(registrar).types@)[k])
        },
{
    let ghost all = stmts@;
    let mut pending = stmts;
    let mut prepared: Vec<PreparedModule> = Vec::new();
    let mut k: usize = 0;
    while k < modules.len()
        invariant
            k <= modules.len(),
            all.len() == modules.len(),
            forall|j: int| 0 <= j < modules.len() ==> (#[trigger] all[j]).len() == modules@[j].queries.len(),
            pending@ == all.subrange(k as int, all.len() as int),
            prepared.len() == k,
            forall|j: int| 0 <= j < k ==> module_prepared_as(#[trigger] prepared@[j], modules@[j]),
            all == stmts@,
            registrar.wf(),
            extends(old(registrar).types@, registrar.types@),
        decreases modules.len() - k,
    {
        let st = pending.remove(0);
        assert(st == all[k as int]);
        assert(pending@ =~= all.subrange(k + 1, all.len() as int));
        let ghost reg_before = registrar.types@;
        assert(module_valid(modules@[k as int], stmts@[k as int]@) ==> module_valid(modules@[k as int], st@));
        let res = prepare_module(registrar, &modules[k], st);
        assert(forall|i: int| 0 <= i < old(registrar).types.len() ==> #[trigger] registrar.types@[i] == reg_before[i]);
        match res {
            Ok(m) => {
                let ghost before = prepared@;
                prepared.push(m);
                assert(forall|j: int| 0 <= j < k ==> prepared@[j] == before[j]);
            },
            Err(e) => {
                assert(stmts@[k as int] == all[k as int]);
                return Err(e);
            },
        }
        k = k + 1;
    }
    let types = prepared_types(registrar);
    Ok((prepared, types))
}

} // verus!
