use crate::prepared::Located;
use crate::registrar::PgType;
use vstd::prelude::*;

verus! {

/// A result column marked nullable: by 1-based position or by name.
#[derive(Debug)]
pub enum NullableColumn {
    Index(usize),
    Named(String),
}

pub enum NullableView {
    Index(usize),
    Named(Seq<char>),
}

impl View for NullableColumn {
    type V = NullableView;

    open spec fn view(&self) -> NullableView {
        match self {
            NullableColumn::Index(i) => NullableView::Index(*i),
            NullableColumn::Named(n) => NullableView::Named(n@),
        }
    }
}

/// A query as the parser hands it over.
#[derive(Debug)]
pub struct ParsedQuery {
    pub name: Located<String>,
    /// 1-based line of the query in its file.
    pub line: usize,
    pub sql_str: String,
    /// Parameter names, in `$1, $2, ...` order.
    pub params: Vec<Located<String>>,
    pub nullable_columns: Vec<Located<NullableColumn>>,
    pub named_return_struct: Option<Located<String>>,
    pub named_param_struct: Option<Located<String>>,
}

/// A query file's worth of parsed queries.
#[derive(Debug)]
pub struct Module {
    pub name: String,
    pub path: String,
    pub queries: Vec<ParsedQuery>,
}

/// A result column of a prepared statement.
#[derive(Debug)]
pub struct ColumnDesc {
    pub name: String,
    pub ty: PgType,
}

/// What the server reports of a prepared statement.
#[derive(Debug)]
pub struct StatementDesc {
    /// Types of the parameters, in `$1, $2, ...` order.
    pub params: Vec<PgType>,
    pub columns: Vec<ColumnDesc>,
}

} // verus!
