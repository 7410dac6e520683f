//! The statements of the query language, as the parser hands them on.

use vstd::prelude::*;

verus! {

/// A statement.
#[derive(Debug)]
pub enum Stmt {
    /// What is selected, the database, the table, the `where` condition and
    /// the column to order by.
    SelectStmt(Box<Expr>, String, String, Option<Box<Expr>>, Option<String>),
    /// The database, the table, the names of the columns and, row by row,
    /// the values.
    InsertStmt(String, String, Vec<String>, Vec<Vec<String>>),
    /// The database, the table and the `where` condition.
    DeleteStmt(String, String, Option<Box<Expr>>),
}

/// An expression.
#[derive(Debug)]
pub enum Expr {
    /// `*`
    All,
    /// `count()`
    Count,
    Bool(bool),
    Number(i32),
    /// `=`
    OpEq(Box<Expr>, Box<Expr>),
    /// The name of a column.
    ColumnRef(String),
}

/// An expression, as a mathematical value.
pub enum SpecExpr {
    All,
    Count,
    Bool(bool),
    Number(i32),
    OpEq(Box<SpecExpr>, Box<SpecExpr>),
    ColumnRef(Seq<char>),
}

/// A statement, as a mathematical value.
pub enum SpecStmt {
    SelectStmt(SpecExpr, Seq<char>, Seq<char>, Option<SpecExpr>, Option<Seq<char>>),
    InsertStmt(Seq<char>, Seq<char>, Seq<Seq<char>>, Seq<Seq<Seq<char>>>),
    DeleteStmt(Seq<char>, Seq<char>, Option<SpecExpr>),
}

/// An expression as a mathematical value.
pub open spec fn spec_expr_view(expr: Expr) -> SpecExpr
    decreases expr,
{
    match expr {
        Expr::All => SpecExpr::All,
        Expr::Count => SpecExpr::Count,
        Expr::Bool(b) => SpecExpr::Bool(b),
        Expr::Number(n) => SpecExpr::Number(n),
        Expr::OpEq(a, b) => SpecExpr::OpEq(
            Box::new(spec_expr_view(*a)),
            Box::new(spec_expr_view(*b)),
        ),
        Expr::ColumnRef(name) => SpecExpr::ColumnRef(name@),
    }
}

/// An expression that may be missing, as a mathematical value.
pub open spec fn spec_option_view(expr: Option<Box<Expr>>) -> Option<SpecExpr> {
    match expr {
        Some(e) => Some(spec_expr_view(*e)),
        None => None,
    }
}

/// Texts as mathematical values.
pub open spec fn spec_strings(texts: Seq<String>) -> Seq<Seq<char>> {
    texts.map_values(|t: String| t@)
}

/// Rows of texts as mathematical values.
pub open spec fn spec_string_rows(rows: Seq<Vec<String>>) -> Seq<Seq<Seq<char>>> {
    rows.map_values(|r: Vec<String>| spec_strings(r@))
}

impl View for Expr {
    type V = SpecExpr;

    open spec fn view(&self) -> SpecExpr {
        spec_expr_view(*self)
    }
}

impl View for Stmt {
    type V = SpecStmt;

    open spec fn view(&self) -> SpecStmt {
        match self {
            Stmt::SelectStmt(expr, db, table, qual, sort) => SpecStmt::SelectStmt(
                spec_expr_view(**expr),
                db@,
                table@,
                spec_option_view(*qual),
                match sort {
                    Some(column) => Some(column@),
                    None => None,
                },
            ),
            Stmt::InsertStmt(db, table, keys, rows) => SpecStmt::InsertStmt(
                db@,
                table@,
                spec_strings(keys@),
                spec_string_rows(rows@),
            ),
            Stmt::DeleteStmt(db, table, qual) => SpecStmt::DeleteStmt(
                db@,
                table@,
                spec_option_view(*qual),
            ),
        }
    }
}

} // verus!
