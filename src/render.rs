use crate::error::{Error, ErrorVariant, ValidationError};
use crate::prepared::PreparedField;
use vstd::prelude::*;

verus! {

pub open spec fn digit_text(d: nat) -> Seq<char> {
    if d == 0 {
        "0"@
    } else if d == 1 {
        "1"@
    } else if d == 2 {
        "2"@
    } else if d == 3 {
        "3"@
    } else if d == 4 {
        "4"@
    } else if d == 5 {
        "5"@
    } else if d == 6 {
        "6"@
    } else if d == 7 {
        "7"@
    } else if d == 8 {
        "8"@
    } else {
        "9"@
    }
}

/// The decimal digits of `n`.
pub open spec fn decimal(n: nat) -> Seq<char>
    decreases n,
{
    if n < 10 {
        digit_text(n)
    } else {
        decimal(n / 10) + digit_text(n % 10)
    }
}

fn digit(d: usize) -> (r: &'static str)
    requires
        d < 10,
    ensures
        r@ == digit_text(d as nat),
{
    if d == 0 {
        "0"
    } else if d == 1 {
        "1"
    } else if d == 2 {
        "2"
    } else if d == 3 {
        "3"
    } else if d == 4 {
        "4"
    } else if d == 5 {
        "5"
    } else if d == 6 {
        "6"
    } else if d == 7 {
        "7"
    } else if d == 8 {
        "8"
    } else {
        "9"
    }
}

/// Appends the decimal digits of `n` to `out`.
pub fn push_decimal(out: &mut String, n: usize)
    ensures
        final(out)@ == old(out)@ + decimal(n as nat),
    decreases n,
{
    if n < 10 {
        out.append(digit(n));
    } else {
        push_decimal(out, n / 10);
        out.append(digit(n % 10));
        assert(decimal(n as nat) == decimal((n / 10) as nat) + digit_text((n % 10) as nat));
        assert(old(out)@ + decimal((n / 10) as nat) + digit_text((n % 10) as nat) =~= old(out)@ + decimal(n as nat));
    }
}

/// A field as `name: type N`, followed by `?` where it is nullable.
pub open spec fn field_text(f: PreparedField) -> Seq<char> {
    f.name@ + ": type "@ + decimal(f.ty.index as nat) + if f.is_nullable {
        "?"@
    } else {
        Seq::empty()
    }
}

/// Fields separated by `, `.
pub open spec fn fields_text(fs: Seq<PreparedField>) -> Seq<char>
    decreases fs.len(),
{
    if fs.len() == 0 {
        Seq::empty()
    } else if fs.len() == 1 {
        field_text(fs[0])
    } else {
        fields_text(fs.drop_last()) + ", "@ + field_text(fs.last())
    }
}

fn push_field(out: &mut String, f: &PreparedField)
    ensures
        final(out)@ == old(out)@ + field_text(*f),
{
    let ghost start = out@;
    out.append(f.name.as_str());
    out.append(": type ");
    push_decimal(out, f.ty.index);
    if f.is_nullable {
        out.append("?");
    }
    assert(out@ =~= start + field_text(*f));
}

fn push_fields(out: &mut String, fs: &Vec<PreparedField>)
    ensures
        final(out)@ == old(out)@ + "["@ + fields_text(fs@) + "]"@,
{
    let ghost start = out@;
    out.append("[");
    assert(out@ =~= start + "["@ + fields_text(fs@.subrange(0, 0)));
    let mut i: usize = 0;
    while i < fs.len()
        invariant
            i <= fs.len(),
            out@ == start + "["@ + fields_text(fs@.subrange(0, i as int)),
        decreases fs.len() - i,
    {
        let ghost before = out@;
        assert(fs@.subrange(0, i + 1).drop_last() =~= fs@.subrange(0, i as int));
        assert(fs@.subrange(0, i + 1).last() == fs@[i as int]);
        assert(fs@.subrange(0, i + 1)[0] == fs@[0]);
        if i > 0 {
            out.append(", ");
        }
        push_field(out, &fs[i]);
        assert(out@ =~= start + "["@ + fields_text(fs@.subrange(0, i + 1)));
        i = i + 1;
    }
    assert(fs@.subrange(0, i as int) =~= fs@);
    out.append("]");
}

/// What went wrong, without the query's location.
pub open spec fn variant_text(e: ErrorVariant) -> Seq<char> {
    match e {
        ErrorVariant::Db(d) => d.message@,
        ErrorVariant::PostgresType(u) => "Unsupported type `"@ + u.pg_name@ + "`."@,
        ErrorVariant::ColumnNameAlreadyTaken { name } => "Two or more columns have the same name: `"@
            + name@ + "`. Consider disambiguing the column names with `AS` clauses."@,
        ErrorVariant::Validation(v) => match v {
            ValidationError::QueryNameAlreadyUsed { name, .. } => "A query named `"@ + name@
                + "` already exists."@,
            ValidationError::InvalidNullableColumnIndex { index, max_col_index, .. } =>
                "Nullable column index "@ + decimal(index as nat) + " is out of range: the query returns "@
                + decimal(max_col_index as nat) + " column(s)."@,
            ValidationError::InvalidNullableColumnName { name, .. } => "Nullable column `"@ + name@
                + "` is not a column of the query."@,
            ValidationError::ColumnAlreadyNullable { name, .. } => "Column `"@ + name@
                + "` is already marked nullable."@,
            ValidationError::NamedRowInvalidFields { expected, actual, name, .. } => "Row `"@ + name@
                + "` was declared with other fields: expected "@ + "["@ + fields_text(expected@) + "]"@
                + ", got "@ + "["@ + fields_text(actual@) + "]"@ + "."@,
            ValidationError::NamedParamStructInvalidFields { expected, actual, name, .. } =>
                "Params `"@ + name@ + "` was declared with other fields: expected "@ + "["@
                + fields_text(expected@) + "]"@ + ", got "@ + "["@ + fields_text(actual@) + "]"@ + "."@,
        },
    }
}

fn push_variant(out: &mut String, e: &ErrorVariant)
    ensures
        final(out)@ == old(out)@ + variant_text(*e),
{
    let ghost start = out@;
    match e {
        ErrorVariant::Db(d) => {
            out.append(d.message.as_str());
        },
        ErrorVariant::PostgresType(u) => {
            out.append("Unsupported type `");
            out.append(u.pg_name.as_str());
            out.append("`.");
        },
        ErrorVariant::ColumnNameAlreadyTaken { name } => {
            out.append("Two or more columns have the same name: `");
            out.append(name.as_str());
            out.append("`. Consider disambiguing the column names with `AS` clauses.");
        },
        ErrorVariant::Validation(v) => match v {
            ValidationError::QueryNameAlreadyUsed { name, .. } => {
                out.append("A query named `");
                out.append(name.as_str());
                out.append("` already exists.");
            },
            ValidationError::InvalidNullableColumnIndex { index, max_col_index, .. } => {
                out.append("Nullable column index ");
                push_decimal(out, *index);
                out.append(" is out of range: the query returns ");
                push_decimal(out, *max_col_index);
                out.append(" column(s).");
            },
            ValidationError::InvalidNullableColumnName { name, .. } => {
                out.append("Nullable column `");
                out.append(name.as_str());
                out.append("` is not a column of the query.");
            },
            ValidationError::ColumnAlreadyNullable { name, .. } => {
                out.append("Column `");
                out.append(name.as_str());
                out.append("` is already marked nullable.");
            },
            ValidationError::NamedRowInvalidFields { expected, actual, name, .. } => {
                out.append("Row `");
                out.append(name.as_str());
                out.append("` was declared with other fields: expected ");
                push_fields(out, expected);
                out.append(", got ");
                push_fields(out, actual);
                out.append(".");
            },
            ValidationError::NamedParamStructInvalidFields { expected, actual, name, .. } => {
                out.append("Params `");
                out.append(name.as_str());
                out.append("` was declared with other fields: expected ");
                push_fields(out, expected);
                out.append(", got ");
                push_fields(out, actual);
                out.append(".");
            },
        },
    }
    assert(out@ =~= start + variant_text(*e));
}

/// The report of an error: a database error carries the server's message
/// in parentheses; the others follow on the next line. Without a line
/// number only the `, line: N` part is left out.
pub open spec fn report_text(e: Error) -> Seq<char> {
    let head = "Error while preparing query \""@ + e.query_name@ + "\" [file: \""@ + e.path@ + "\""@;
    match e.err {
        ErrorVariant::Db(_) => head + ", line: "@ + decimal(
            match e.query_start_line {
                Some(l) => l as nat,
                None => 0,
            },
        ) + "] ("@ + variant_text(e.err) + ")"@,
        _ => match e.query_start_line {
            Some(l) => head + ", line: "@ + decimal(l as nat) + "]:\n"@ + variant_text(e.err),
            None => head + "]:\n"@ + variant_text(e.err),
        },
    }
}

impl Error {
    /// The text shown to the user for this error.
    pub fn report(&self) -> (r: String)
        ensures
            r@ == report_text(*self),
    {
        let mut out = String::new();
        out.append("Error while preparing query \"");
        out.append(self.query_name.as_str());
        out.append("\" [file: \"");
        out.append(self.path.as_str());
        out.append("\"");
        let ghost head = out@;
        match &self.err {
            ErrorVariant::Db(_) => {
                out.append(", line: ");
                let line = match self.query_start_line {
                    Some(l) => l,
                    None => 0,
                };
                push_decimal(&mut out, line);
                out.append("] (");
                push_variant(&mut out, &self.err);
                out.append(")");
            },
            _ => match self.query_start_line {
                Some(l) => {
                    out.append(", line: ");
                    push_decimal(&mut out, l);
                    out.append("]:\n");
                    push_variant(&mut out, &self.err);
                },
                None => {
                    out.append("]:\n");
                    push_variant(&mut out, &self.err);
                },
            },
        }
        assert(out@ =~= report_text(*self));
        out
    }
}

} // verus!
