use cornucopia_prepare::error::{DbError, Error, ErrorVariant, ValidationError};
use cornucopia_prepare::prepare::{
    has_duplicate, prepare, prepare_module, prepare_query, prepared_types, resolve_nullable,
    PreparedType,
};
use cornucopia_prepare::prepared::{Located, PreparedField, PreparedModule};
use cornucopia_prepare::query::{ColumnDesc, Module, NullableColumn, ParsedQuery, StatementDesc};
use cornucopia_prepare::registrar::{
    primitive_of, CoreType, CustomKind, PgField, PgKind, PgType, Primitive, TypeHandle,
    TypeRegistrar,
};
use cornucopia_prepare::text::{str_eq, str_lt};

fn simple(name: &str) -> PgType {
    PgType { schema: "pg_catalog".to_string(), name: name.to_string(), kind: PgKind::Simple }
}

fn col(name: &str, ty: PgType) -> ColumnDesc {
    ColumnDesc { name: name.to_string(), ty }
}

fn loc<T>(value: T, pos: usize) -> Located<T> {
    Located { value, pos }
}

fn query(name: &str, pos: usize, line: usize, params: &[&str]) -> ParsedQuery {
    ParsedQuery {
        name: loc(name.to_string(), pos),
        line,
        sql_str: format!("SELECT /* {name} */"),
        params: params.iter().enumerate().map(|(i, p)| loc(p.to_string(), pos + 10 + i)).collect(),
        nullable_columns: Vec::new(),
        named_return_struct: None,
        named_param_struct: None,
    }
}

fn stmt(params: Vec<PgType>, columns: Vec<ColumnDesc>) -> Result<StatementDesc, DbError> {
    Ok(StatementDesc { params, columns })
}

fn names(fields: &[PreparedField]) -> Vec<String> {
    fields.iter().map(|f| f.name.clone()).collect()
}

fn run(m: &mut PreparedModule, reg: &mut TypeRegistrar, q: &ParsedQuery, s: Result<StatementDesc, DbError>) -> Result<(), Error> {
    prepare_query(m, reg, q, "queries/m.sql", s)
}

#[test]
fn duplicate_row_matching_fields_differing_order() {
    let mut reg = TypeRegistrar::new();
    let mut m = PreparedModule::new("m".to_string());
    let mut q1 = query("q1", 0, 1, &[]);
    q1.named_return_struct = Some(loc("R".to_string(), 5));
    let mut q2 = query("q2", 50, 4, &[]);
    q2.named_return_struct = Some(loc("R".to_string(), 55));
    run(&mut m, &mut reg, &q1, stmt(vec![], vec![col("a", simple("int4")), col("b", simple("text"))])).unwrap();
    run(&mut m, &mut reg, &q2, stmt(vec![], vec![col("b", simple("text")), col("a", simple("int4"))])).unwrap();
    assert_eq!(m.rows.len(), 1);
    assert_eq!(m.rows[0].name, "R");
    assert_eq!(names(&m.rows[0].fields), vec!["a", "b"]);
    assert_eq!(m.queries[0].row.as_ref().unwrap(), &(0, vec![0, 1]));
    assert_eq!(m.queries[1].row.as_ref().unwrap(), &(0, vec![1, 0]));
}

#[test]
fn duplicate_row_mismatched_fields() {
    let mut reg = TypeRegistrar::new();
    let mut m = PreparedModule::new("m".to_string());
    let mut q1 = query("q1", 0, 1, &[]);
    q1.named_return_struct = Some(loc("R".to_string(), 5));
    let mut q2 = query("q2", 50, 4, &[]);
    q2.named_return_struct = Some(loc("R".to_string(), 55));
    run(&mut m, &mut reg, &q1, stmt(vec![], vec![col("a", simple("int4"))])).unwrap();
    let e = run(&mut m, &mut reg, &q2, stmt(vec![], vec![col("a", simple("int4")), col("b", simple("int4"))]))
        .unwrap_err();
    assert_eq!(e.query_name, "q2");
    assert_eq!(e.query_start_line, Some(4));
    match e.err {
        ErrorVariant::Validation(ValidationError::NamedRowInvalidFields { expected, actual, name, pos }) => {
            assert_eq!(name, "R");
            assert_eq!(pos, 55);
            assert_eq!(names(&expected), vec!["a"]);
            assert_eq!(names(&actual), vec!["a", "b"]);
        },
        other => panic!("unexpected {other:?}"),
    }
}

#[test]
fn nullable_column_by_index() {
    let mut reg = TypeRegistrar::new();
    let mut m = PreparedModule::new("m".to_string());
    let mut q = query("q", 0, 1, &[]);
    q.nullable_columns = vec![loc(NullableColumn::Index(2), 7)];
    run(&mut m, &mut reg, &q, stmt(vec![], vec![col("x", simple("int4")), col("y", simple("text"))])).unwrap();
    let fields = &m.rows[0].fields;
    assert_eq!(fields[0].name, "x");
    assert!(!fields[0].is_nullable);
    assert_eq!(fields[1].name, "y");
    assert!(fields[1].is_nullable);
}

#[test]
fn invalid_nullable_index() {
    let mut reg = TypeRegistrar::new();
    let mut m = PreparedModule::new("m".to_string());
    let mut q = query("q", 0, 1, &[]);
    q.nullable_columns = vec![loc(NullableColumn::Index(3), 7)];
    let e = run(&mut m, &mut reg, &q, stmt(vec![], vec![col("x", simple("int4")), col("y", simple("text"))]))
        .unwrap_err();
    match e.err {
        ErrorVariant::Validation(ValidationError::InvalidNullableColumnIndex { index, max_col_index, pos }) => {
            assert_eq!((index, max_col_index, pos), (3, 2, 7));
        },
        other => panic!("unexpected {other:?}"),
    }
}

#[test]
fn nullable_index_zero_is_out_of_range() {
    let cols = vec![col("x", simple("int4"))];
    match resolve_nullable(&cols, &vec![loc(NullableColumn::Index(0), 3)]) {
        Err(ValidationError::InvalidNullableColumnIndex { index, max_col_index, pos }) => {
            assert_eq!((index, max_col_index, pos), (0, 1, 3));
        },
        other => panic!("unexpected {other:?}"),
    }
}

#[test]
fn duplicate_nullable_by_name_then_index() {
    let mut reg = TypeRegistrar::new();
    let mut m = PreparedModule::new("m".to_string());
    let mut q = query("q", 0, 1, &[]);
    q.nullable_columns = vec![loc(NullableColumn::Named("x".to_string()), 10), loc(NullableColumn::Index(1), 20)];
    let e = run(&mut m, &mut reg, &q, stmt(vec![], vec![col("x", simple("int4"))])).unwrap_err();
    match e.err {
        ErrorVariant::Validation(ValidationError::ColumnAlreadyNullable { name, pos }) => {
            assert_eq!(name, "x");
            assert_eq!(pos, 20);
        },
        other => panic!("unexpected {other:?}"),
    }
}

#[test]
fn invalid_nullable_name() {
    let cols = vec![col("x", simple("int4"))];
    match resolve_nullable(&cols, &vec![loc(NullableColumn::Named("z".to_string()), 4)]) {
        Err(ValidationError::InvalidNullableColumnName { name, pos }) => {
            assert_eq!(name, "z");
            assert_eq!(pos, 4);
        },
        other => panic!("unexpected {other:?}"),
    }
    let found = resolve_nullable(&cols, &vec![loc(NullableColumn::Named("x".to_string()), 4)]).unwrap();
    assert_eq!(found, vec!["x".to_string()]);
}

fn point() -> PgType {
    PgType {
        schema: "public".to_string(),
        name: "pt".to_string(),
        kind: PgKind::Composite(vec![
            PgField { name: "x".to_string(), ty: simple("int4") },
            PgField { name: "y".to_string(), ty: simple("int4") },
        ]),
    }
}

#[test]
fn composite_type_registration() {
    let mut reg = TypeRegistrar::new();
    let mut m = PreparedModule::new("m".to_string());
    let q = query("q", 0, 1, &[]);
    run(&mut m, &mut reg, &q, stmt(vec![], vec![col("p", point())])).unwrap();
    let h = reg.get(&point()).unwrap();
    let int4 = reg.get(&simple("int4")).unwrap();
    assert_eq!(m.rows[0].fields[0].ty, h);
    assert!(h.is_copy);
    match reg.core_type(h) {
        CoreType::Custom { pg_name, kind: CustomKind::Composite(fields), is_copy } => {
            assert_eq!(pg_name, "pt");
            assert!(*is_copy);
            assert_eq!(fields.len(), 2);
            assert_eq!((fields[0].name.as_str(), fields[0].ty), ("x", int4));
            assert_eq!((fields[1].name.as_str(), fields[1].ty), ("y", int4));
        },
        other => panic!("unexpected {other:?}"),
    }
}

#[test]
fn default_struct_names() {
    let mut reg = TypeRegistrar::new();
    let mut m = PreparedModule::new("m".to_string());
    let q = query("get_user", 0, 1, &["id"]);
    run(&mut m, &mut reg, &q, stmt(vec![simple("int4")], vec![col("name", simple("text"))])).unwrap();
    assert_eq!(m.rows[0].name, "GetUser");
    assert_eq!(m.params[0].name, "GetUserParams");
    assert_eq!(m.params[0].queries, vec![0]);
}

#[test]
fn database_error_report() {
    let mut reg = TypeRegistrar::new();
    let mut m = PreparedModule::new("m".to_string());
    let q = query("bad", 0, 3, &[]);
    let db = DbError { message: "syntax error at or near \"SELEC\"".to_string() };
    let e = run(&mut m, &mut reg, &q, Err(db)).unwrap_err();
    assert_eq!(
        e.report(),
        "Error while preparing query \"bad\" [file: \"queries/m.sql\", line: 3] (syntax error at or near \"SELEC\")"
    );
}

#[test]
fn rows_strictly_sorted() {
    let mut reg = TypeRegistrar::new();
    let mut m = PreparedModule::new("m".to_string());
    let q = query("q", 0, 1, &[]);
    run(&mut m, &mut reg, &q, stmt(vec![], vec![col("c", simple("int4")), col("a", simple("text")), col("ab", simple("bool"))]))
        .unwrap();
    assert_eq!(names(&m.rows[0].fields), vec!["a", "ab", "c"]);
    assert!(!m.rows[0].is_copy);
}

#[test]
fn permutation_maps_row_onto_columns() {
    let mut reg = TypeRegistrar::new();
    let mut m = PreparedModule::new("m".to_string());
    let cols = ["c", "a", "b"];
    let q = query("q", 0, 1, &[]);
    run(&mut m, &mut reg, &q, stmt(vec![], cols.iter().map(|c| col(c, simple("int4"))).collect())).unwrap();
    let (i, perm) = m.queries[0].row.clone().unwrap();
    assert_eq!(perm, vec![2, 0, 1]);
    for (j, c) in cols.iter().enumerate() {
        assert_eq!(m.rows[i].fields[perm[j]].name, *c);
    }
    assert!(m.rows[0].is_copy);
}

#[test]
fn params_struct_shared_and_checked() {
    let mut reg = TypeRegistrar::new();
    let mut m = PreparedModule::new("m".to_string());
    let mut q1 = query("q1", 0, 1, &["b", "a"]);
    q1.named_param_struct = Some(loc("P".to_string(), 3));
    let mut q2 = query("q2", 30, 2, &["a", "b"]);
    q2.named_param_struct = Some(loc("P".to_string(), 33));
    let mut q3 = query("q3", 60, 3, &["a"]);
    q3.named_param_struct = Some(loc("P".to_string(), 63));
    run(&mut m, &mut reg, &q1, stmt(vec![simple("int4"), simple("text")], vec![])).unwrap();
    run(&mut m, &mut reg, &q2, stmt(vec![simple("text"), simple("int4")], vec![])).unwrap();
    assert_eq!(m.params.len(), 1);
    assert_eq!(names(&m.params[0].fields), vec!["a", "b"]);
    assert_eq!(m.params[0].queries, vec![0, 1]);
    assert!(m.queries[0].row.is_none());
    let e = run(&mut m, &mut reg, &q3, stmt(vec![simple("text")], vec![])).unwrap_err();
    match e.err {
        ErrorVariant::Validation(ValidationError::NamedParamStructInvalidFields { expected, actual, name, pos }) => {
            assert_eq!(name, "P");
            assert_eq!(pos, 63);
            assert_eq!(names(&expected), vec!["a", "b"]);
            assert_eq!(names(&actual), vec!["a"]);
        },
        other => panic!("unexpected {other:?}"),
    }
}

#[test]
fn register_is_idempotent() {
    let mut reg = TypeRegistrar::new();
    let arr = PgType {
        schema: "pg_catalog".to_string(),
        name: "_int4".to_string(),
        kind: PgKind::Array(Box::new(simple("int4"))),
    };
    let h1 = reg.register(&arr).unwrap();
    let n = reg.types.len();
    assert_eq!(n, 2);
    let h2 = reg.register(&arr).unwrap();
    assert_eq!(h1, h2);
    assert_eq!(reg.types.len(), n);
    assert!(!h1.is_copy);
}

#[test]
fn unsupported_type_is_reported() {
    let mut reg = TypeRegistrar::new();
    let mut m = PreparedModule::new("m".to_string());
    let q = query("q", 0, 2, &[]);
    let odd = PgType { schema: "pg_catalog".to_string(), name: "tsvector".to_string(), kind: PgKind::Simple };
    let e = run(&mut m, &mut reg, &q, stmt(vec![], vec![col("v", odd)])).unwrap_err();
    match &e.err {
        ErrorVariant::PostgresType(u) => assert_eq!(u.pg_name, "tsvector"),
        other => panic!("unexpected {other:?}"),
    }
    assert_eq!(
        e.report(),
        "Error while preparing query \"q\" [file: \"queries/m.sql\", line: 2]:\nUnsupported type `tsvector`."
    );
}

#[test]
fn column_name_already_taken() {
    let mut reg = TypeRegistrar::new();
    let mut m = PreparedModule::new("m".to_string());
    let q = query("dup", 0, 12, &[]);
    let e = run(&mut m, &mut reg, &q, stmt(vec![], vec![col("id", simple("int4")), col("n", simple("text")), col("id", simple("int8"))]))
        .unwrap_err();
    assert_eq!(
        e.report(),
        "Error while preparing query \"dup\" [file: \"queries/m.sql\", line: 12]:\nTwo or more columns have the same name: `id`. Consider disambiguing the column names with `AS` clauses."
    );
}

#[test]
fn query_name_already_used() {
    let mut reg = TypeRegistrar::new();
    let mut m = PreparedModule::new("m".to_string());
    let q = query("q", 0, 1, &[]);
    run(&mut m, &mut reg, &q, stmt(vec![], vec![])).unwrap();
    let again = query("q", 40, 5, &[]);
    let e = run(&mut m, &mut reg, &again, stmt(vec![], vec![])).unwrap_err();
    match &e.err {
        ErrorVariant::Validation(ValidationError::QueryNameAlreadyUsed { name, pos }) => {
            assert_eq!(name, "q");
            assert_eq!(*pos, 40);
        },
        other => panic!("unexpected {other:?}"),
    }
    assert_eq!(m.queries.len(), 1);
}

#[test]
fn report_without_line_and_with_fields() {
    let h = TypeHandle { index: 0, is_copy: true };
    let f = |n: &str, nullable: bool| PreparedField { name: n.to_string(), ty: h, is_nullable: nullable, is_inner_nullable: false };
    let e = Error {
        query_name: "q".to_string(),
        query_start_line: None,
        err: ErrorVariant::Validation(ValidationError::NamedRowInvalidFields {
            expected: vec![f("a", false)],
            actual: vec![f("a", true), f("b", false)],
            name: "R".to_string(),
            pos: 0,
        }),
        path: "queries/m.sql".to_string(),
    };
    assert_eq!(
        e.report(),
        "Error while preparing query \"q\" [file: \"queries/m.sql\"]:\nRow `R` was declared with other fields: expected [a: type 0], got [a: type 0?, b: type 0]."
    );
    let e = Error {
        query_name: "q".to_string(),
        query_start_line: Some(1234),
        err: ErrorVariant::Validation(ValidationError::InvalidNullableColumnIndex { index: 3, max_col_index: 2, pos: 9 }),
        path: "p.sql".to_string(),
    };
    assert_eq!(
        e.report(),
        "Error while preparing query \"q\" [file: \"p.sql\", line: 1234]:\nNullable column index 3 is out of range: the query returns 2 column(s)."
    );
}

#[test]
fn has_duplicate_finds_first_repeat() {
    let v = |s: &[&str]| s.iter().map(|x| x.to_string()).collect::<Vec<_>>();
    assert_eq!(has_duplicate(&v(&[])), None);
    assert_eq!(has_duplicate(&v(&["a", "b", "c"])), None);
    assert_eq!(has_duplicate(&v(&["a", "b", "b", "a"])), Some(2));
    assert_eq!(has_duplicate(&v(&["a", "b", "a"])), Some(2));
}

#[test]
fn string_comparisons() {
    assert!(str_eq("abc", "abc"));
    assert!(!str_eq("abc", "abd"));
    assert!(str_lt("ab", "abc"));
    assert!(str_lt("abc", "abd"));
    assert!(!str_lt("b", "abc"));
    assert!(!str_lt("a", "a"));
}

#[test]
fn primitive_table() {
    assert_eq!(primitive_of("int4"), Some((Primitive::Int4, true)));
    assert_eq!(primitive_of("varchar"), Some((Primitive::Text, false)));
    assert_eq!(primitive_of("jsonb"), Some((Primitive::Json, false)));
    assert_eq!(primitive_of("tsvector"), None);
}

fn sample_module() -> (Module, Vec<Result<StatementDesc, DbError>>) {
    let mood = PgType {
        schema: "public".to_string(),
        name: "mood".to_string(),
        kind: PgKind::Enum(vec!["sad".to_string(), "happy".to_string()]),
    };
    let email = PgType {
        schema: "public".to_string(),
        name: "email".to_string(),
        kind: PgKind::Domain(Box::new(simple("text"))),
    };
    let module = Module {
        name: "m".to_string(),
        path: "queries/m.sql".to_string(),
        queries: vec![query("first", 0, 1, &["id"]), query("second", 40, 6, &[])],
    };
    let stmts = vec![
        stmt(vec![simple("int4")], vec![col("m", mood), col("p", point())]),
        stmt(vec![], vec![col("e", email)]),
    ];
    (module, stmts)
}

#[test]
fn pipeline_is_deterministic() {
    let mut outputs = Vec::new();
    for _ in 0..2 {
        let mut reg = TypeRegistrar::new();
        let (module, stmts) = sample_module();
        let m = prepare_module(&mut reg, &module, stmts).unwrap();
        outputs.push(format!("{m:?} {reg:?}"));
    }
    assert_eq!(outputs[0], outputs[1]);
}

#[test]
fn prepare_lists_declared_types() {
    let mut reg = TypeRegistrar::new();
    let (module, stmts) = sample_module();
    let (modules, types) = prepare(&mut reg, &vec![module], vec![stmts]).unwrap();
    assert_eq!(modules.len(), 1);
    assert_eq!(modules[0].queries.values().map(|q| q.name.as_str()).collect::<Vec<_>>(), vec!["first", "second"]);
    let keys: Vec<_> = types.iter().map(|t| (t.schema.as_str(), t.name.as_str())).collect();
    assert_eq!(keys, vec![("public", "mood"), ("public", "pt"), ("public", "email")]);
    match &types[0].ty {
        PreparedType::Enum(v) => assert_eq!(v, &vec!["sad".to_string(), "happy".to_string()]),
        other => panic!("unexpected {other:?}"),
    }
    match &types[2].ty {
        PreparedType::Domain(f) => {
            assert_eq!(f.name, "inner");
            assert_eq!(f.ty, reg.get(&simple("text")).unwrap());
        },
        other => panic!("unexpected {other:?}"),
    }
    assert_eq!(prepared_types(&reg).len(), 3);
}

#[test]
fn module_error_names_the_query() {
    let mut reg = TypeRegistrar::new();
    let (module, mut stmts) = sample_module();
    stmts[1] = Err(DbError { message: "relation \"x\" does not exist".to_string() });
    let e = prepare_module(&mut reg, &module, stmts).unwrap_err();
    assert_eq!(e.query_name, "second");
    assert_eq!(e.query_start_line, Some(6));
    assert!(matches!(e.err, ErrorVariant::Db(_)));
}

#[test]
fn early_errors_leave_module_and_registrar_unchanged() {
    let mut reg = TypeRegistrar::new();
    let mut m = PreparedModule::new("m".to_string());
    let q = query("q", 0, 1, &[]);
    run(&mut m, &mut reg, &q, stmt(vec![], vec![col("a", simple("int4"))])).unwrap();
    let types_before = reg.types.len();
    let bad = query("bad", 20, 2, &[]);
    let e = run(&mut m, &mut reg, &bad, Err(DbError { message: "boom".to_string() })).unwrap_err();
    assert!(matches!(e.err, ErrorVariant::Db(_)));
    assert_eq!(reg.types.len(), types_before);
    let mut dup = query("dup", 40, 3, &[]);
    dup.nullable_columns = vec![loc(NullableColumn::Index(5), 44)];
    let e = run(&mut m, &mut reg, &dup, stmt(vec![], vec![col("z", simple("text"))])).unwrap_err();
    assert!(matches!(e.err, ErrorVariant::Validation(ValidationError::InvalidNullableColumnIndex { .. })));
    assert_eq!(m.queries.len(), 1);
    assert_eq!(m.rows.len(), 1);
}

#[test]
fn first_repeated_column_is_reported() {
    let mut reg = TypeRegistrar::new();
    let mut m = PreparedModule::new("m".to_string());
    let q = query("q", 0, 1, &[]);
    let cols = vec![col("a", simple("int4")), col("b", simple("int4")), col("b", simple("int4")), col("a", simple("int4"))];
    match run(&mut m, &mut reg, &q, stmt(vec![], cols)).unwrap_err().err {
        ErrorVariant::ColumnNameAlreadyTaken { name } => assert_eq!(name, "b"),
        other => panic!("unexpected {other:?}"),
    }
}

#[test]
fn module_stops_at_first_failing_query() {
    let mut reg = TypeRegistrar::new();
    let (mut module, mut stmts) = sample_module();
    module.queries.push(query("third", 80, 9, &[]));
    stmts.push(Err(DbError { message: "late".to_string() }));
    let mut dup = query("first", 90, 7, &[]);
    dup.named_return_struct = Some(loc("Other".to_string(), 91));
    module.queries.insert(1, dup);
    stmts.insert(1, stmt(vec![], vec![]));
    let e = prepare_module(&mut reg, &module, stmts).unwrap_err();
    assert_eq!(e.query_name, "first");
    assert_eq!(e.query_start_line, Some(7));
    match e.err {
        ErrorVariant::Validation(ValidationError::QueryNameAlreadyUsed { name, pos }) => {
            assert_eq!(name, "first");
            assert_eq!(pos, 90);
        },
        other => panic!("unexpected {other:?}"),
    }
}
