//! Carrying out a statement: from the statement to the command that does
//! its work.

use crate::ast::{spec_string_rows, spec_strings, Expr, Stmt};
use crate::buffer_manager::{spec_heap_insert_pages, InvalidBlockNumber};
use crate::catalog::catalog_manager::CatalogManager;
use crate::catalog::mini_attribute::MiniAttributeRecord;
use crate::config::Config;
use crate::dml::{spec_count_output, spec_database_message, spec_db_oid, spec_delete_output,
    spec_insert_refusal, spec_name_view, spec_new_tuple, spec_row_ok, spec_row_refusal,
    spec_scan_error, spec_select_error, spec_select_output, spec_table_columns, spec_table_message,
    spec_table_oid, spec_table_ok, CountCommand, DeleteCommand, InsertIntoCommand, SelectFromCommand};
use crate::parser::{spec_parse, spec_syntax_message, StatementParser};
use crate::storage_manager::{spec_file_pages, spec_file_wf, spec_rel_len};
use crate::tuple::{spec_pairs, spec_parsed_values, KeyValue, KeyValueBuilder};
use vstd::prelude::*;
use vstd::string::StringExecFns;

verus! {

/// What carrying out a statement comes to.
pub struct QueryOutcome {
    /// Whether the statement was carried out; if not, what is to be said.
    pub result: Result<(), String>,
    /// The lines to print, in order, each without its line feed.
    pub lines: Vec<String>,
    /// What the heap file of the table holds now; nothing if the file is
    /// left as it is.
    pub file: Option<Vec<u8>>,
}

/// Carries out statements on the tables of the catalogs.
pub struct Executor<'a> {
    config: Config,
    cmgr: &'a CatalogManager,
}

/// What is said of a `select` that asks for neither `*` nor `count()`.
pub open spec fn spec_unknown_message() -> Seq<char> {
    "Unknown expr"@
}

/// Whether a statement failed with the given message, with nothing to
/// print and the heap file left as it is.
pub open spec fn spec_failed(outcome: QueryOutcome, msg: Seq<char>) -> bool {
    &&& outcome.result matches Err(m) && m@ == msg
    &&& outcome.lines@.len() == 0
    &&& outcome.file is None
}

/// The pairs of a column name and a value that the names of columns and a
/// row of values give: the first name with the first value, and so on, as
/// far as both go.
pub open spec fn spec_row_pairs(keys: Seq<Seq<char>>, row: Seq<Seq<char>>) -> Seq<
    (Seq<char>, Seq<char>),
> {
    Seq::new(
        if keys.len() <= row.len() {
            keys.len()
        } else {
            row.len()
        },
        |i: int| (keys[i], row[i]),
    )
}

/// The number of rows, from row `i` on and counted from the first row, that
/// are inserted before a row cannot be: each row goes into the pages as the
/// rows before it left them.
pub open spec fn spec_rows_done(
    attrs: Seq<MiniAttributeRecord>,
    keys: Seq<Seq<char>>,
    rows: Seq<Seq<Seq<char>>>,
    pages: Seq<Seq<u8>>,
    i: int,
) -> int
    decreases rows.len() - i,
{
    if i < 0 || i >= rows.len() {
        i
    } else if spec_row_ok(attrs, spec_row_pairs(keys, rows[i]), pages.len() as int) {
        spec_rows_done(
            attrs,
            keys,
            rows,
            spec_heap_insert_pages(
                pages,
                InvalidBlockNumber,
                spec_new_tuple(attrs, spec_parsed_values(spec_row_pairs(keys, rows[i]))),
            ),
            i + 1,
        )
    } else {
        i
    }
}

/// The pages of a table once the rows from row `i` on were inserted, up to
/// the first that cannot be.
pub open spec fn spec_rows_pages(
    attrs: Seq<MiniAttributeRecord>,
    keys: Seq<Seq<char>>,
    rows: Seq<Seq<Seq<char>>>,
    pages: Seq<Seq<u8>>,
    i: int,
) -> Seq<Seq<u8>>
    decreases rows.len() - i,
{
    if i < 0 || i >= rows.len() {
        pages
    } else if spec_row_ok(attrs, spec_row_pairs(keys, rows[i]), pages.len() as int) {
        spec_rows_pages(
            attrs,
            keys,
            rows,
            spec_heap_insert_pages(
                pages,
                InvalidBlockNumber,
                spec_new_tuple(attrs, spec_parsed_values(spec_row_pairs(keys, rows[i]))),
            ),
            i + 1,
        )
    } else {
        pages
    }
}

/// Whether `outcome` is what inserting rows into a table comes to. The
/// rows are inserted one after the other, each into the pages as the rows
/// before it left them, up to the first that cannot be inserted; of that
/// row the outcome says what is wrong. The heap file holds the pages with
/// the rows that were inserted.
pub open spec fn spec_insert_outcome(
    cmgr: &CatalogManager,
    dbname: Seq<char>,
    table_name: Seq<char>,
    keys: Seq<Seq<char>>,
    rows: Seq<Seq<Seq<char>>>,
    file: Seq<u8>,
    outcome: QueryOutcome,
) -> bool {
    let attrs = spec_table_columns(cmgr, dbname, table_name);
    let pages = spec_file_pages(file);
    &&& outcome.lines@.len() == 0
    &&& outcome.file matches Some(out_file) && if rows.len() == 0 {
        outcome.result is Ok && out_file@ == file
    } else if !spec_table_ok(cmgr, dbname, table_name) || !spec_file_wf(file) {
        &&& out_file@ == file
        &&& outcome.result matches Err(m) && spec_insert_refusal(
            cmgr,
            dbname,
            table_name,
            spec_row_pairs(keys, rows[0]),
            file,
            m@,
        )
    } else {
        let done = spec_rows_done(attrs, keys, rows, pages, 0);
        let after = spec_rows_pages(attrs, keys, rows, pages, 0);
        &&& spec_file_wf(out_file@)
        &&& spec_file_pages(out_file@) == after
        &&& done == 0 ==> out_file@ == file
        &&& outcome.result is Ok <==> done == rows.len()
        &&& outcome.result matches Err(m) ==> spec_row_refusal(
            table_name,
            attrs,
            spec_row_pairs(keys, rows[done]),
            after.len() as int,
            m@,
        )
    }
}

/// Whether `outcome` is what a command that hands back lines and a heap
/// file comes to, given what is said if the command fails, if it does.
pub open spec fn spec_failed_or(outcome: QueryOutcome, error: Option<Seq<char>>) -> bool {
    match error {
        Some(msg) => spec_failed(outcome, msg),
        None => outcome.result is Ok && outcome.file is Some,
    }
}

/// Whether `outcome` is what carrying out a statement comes to, given what
/// the heap file of its table holds.
pub open spec fn spec_stmt_outcome(
    cmgr: &CatalogManager,
    stmt: Stmt,
    file: Seq<u8>,
    outcome: QueryOutcome,
) -> bool {
    match stmt {
        Stmt::SelectStmt(expr, db, table, qual, sort) => match *expr {
            Expr::All => {
                &&& spec_failed_or(
                    outcome,
                    spec_select_error(cmgr, db@, table@, qual, spec_name_view(sort), file),
                )
                &&& outcome.result is Ok ==> spec_select_output(
                    cmgr,
                    db@,
                    table@,
                    qual,
                    spec_name_view(sort),
                    file,
                    spec_strings(outcome.lines@),
                    outcome.file->0@,
                )
            },
            Expr::Count => {
                &&& spec_failed_or(
                    outcome,
                    spec_select_error(cmgr, db@, table@, qual, spec_name_view(sort), file),
                )
                &&& outcome.result is Ok ==> spec_count_output(
                    cmgr,
                    db@,
                    table@,
                    qual,
                    file,
                    spec_strings(outcome.lines@),
                    outcome.file->0@,
                )
            },
            _ => spec_failed(outcome, spec_unknown_message()),
        },
        Stmt::InsertStmt(db, table, keys, rows) => spec_insert_outcome(
            cmgr,
            db@,
            table@,
            spec_strings(keys@),
            spec_string_rows(rows@),
            file,
            outcome,
        ),
        Stmt::DeleteStmt(db, table, qual) => {
            &&& spec_failed_or(outcome, spec_scan_error(cmgr, db@, table@, qual, file))
            &&& outcome.result is Ok ==> spec_delete_output(
                cmgr,
                db@,
                table@,
                qual,
                file,
                spec_strings(outcome.lines@),
                outcome.file->0@,
            )
        },
    }
}

/// The database and the table that a statement names.
pub open spec fn spec_stmt_table(stmt: Stmt) -> (Seq<char>, Seq<char>) {
    match stmt {
        Stmt::SelectStmt(_, db, table, _, _) => (db@, table@),
        Stmt::InsertStmt(db, table, _, _) => (db@, table@),
        Stmt::DeleteStmt(db, table, _) => (db@, table@),
    }
}

fn failed(msg: String) -> (outcome: QueryOutcome)
    ensures
        spec_failed(outcome, msg@),
{
    QueryOutcome { result: Err(msg), lines: Vec::new(), file: None }
}

/// The pairs of a column name and a value for a row.
fn row_pairs<'b>(keys: &'b Vec<String>, values: &'b Vec<String>) -> (pairs: Vec<KeyValue<'b>>)
    ensures
        spec_pairs(pairs@) == spec_row_pairs(spec_strings(keys@), spec_strings(values@)),
{
    let mut builder = KeyValueBuilder::new();
    let n = if keys.len() <= values.len() {
        keys.len()
    } else {
        values.len()
    };
    let mut j: usize = 0;
    while j < n
        invariant
            j <= n,
            n <= keys@.len(),
            n <= values@.len(),
            builder.pairs().len() == j,
            forall|m: int|
                0 <= m < j ==> (#[trigger] builder.pairs()[m]).key@ == keys@[m]@
                    && builder.pairs()[m].value@ == values@[m]@,
        decreases n - j,
    {
        builder.add_pair(keys[j].as_str(), values[j].as_str());
        j += 1;
    }
    let pairs = builder.build();
    assert(spec_pairs(pairs@) =~= spec_row_pairs(spec_strings(keys@), spec_strings(values@)));
    pairs
}

impl<'a> Executor<'a> {
    /// The catalogs.
    pub closed spec fn catalogs(&self) -> &CatalogManager {
        self.cmgr
    }

    /// The configuration.
    pub closed spec fn config(&self) -> &Config {
        &self.config
    }

    pub fn new(config: Config, cmgr: &'a CatalogManager) -> (executor: Executor<'a>)
        ensures
            executor.catalogs() == cmgr,
            *executor.config() == config,
    {
        Executor { config: config, cmgr: cmgr }
    }

    /// The statement that a text is; for a text that is none, the message
    /// that says so.
    pub fn parse_query(&self, query: &str) -> (r: Result<Stmt, String>)
        ensures
            match spec_parse(query@) {
                Some(stmt) => r matches Ok(s) && s@ == stmt,
                None => r matches Err(m) && m@ == spec_syntax_message(),
            },
    {
        let parser = StatementParser::new();
        parser.parse(query)
    }

    /// The path of the heap file of the table that a statement names.
    /// Fails if the catalog does not have the database or the table.
    pub fn data_file(&self, stmt: &Stmt) -> (r: Result<String, String>)
        ensures
            ({
                let names = spec_stmt_table(*stmt);
                if spec_db_oid(self.catalogs(), names.0) is None {
                    r matches Err(m) && m@ == spec_database_message(names.0)
                } else if spec_table_oid(self.catalogs(), names.0, names.1) is None {
                    r matches Err(m) && m@ == spec_table_message(names.1, names.0)
                } else {
                    r matches Ok(path) && path@ == self.config().spec_data_file(
                        spec_db_oid(self.catalogs(), names.0)->0,
                        spec_table_oid(self.catalogs(), names.0, names.1)->0,
                    )
                }
            }),
    {
        let (dbname, table_name) = match stmt {
            Stmt::SelectStmt(_, db, table, _, _) => (db, table),
            Stmt::InsertStmt(db, table, _, _) => (db, table),
            Stmt::DeleteStmt(db, table, _) => (db, table),
        };
        let db_oid = match self.cmgr.database_rm.find_mini_database_oid(dbname.as_str()) {
            Some(oid) => oid,
            None => {
                let mut msg = String::from_str(dbname.as_str());
                msg.append(" database should be defined.");
                return Err(msg);
            },
        };
        let table_oid = match self.cmgr.class_rm.find_mini_class_oid(db_oid, table_name.as_str()) {
            Some(oid) => oid,
            None => {
                let mut msg = String::from_str(table_name.as_str());
                msg.append(" table should be defined under the ");
                msg.append(dbname.as_str());
                msg.append(" database. ");
                return Err(msg);
            },
        };
        Ok(self.config.data_file_path(db_oid, table_oid))
    }

    /// Carries out a statement, given what the heap file of its table
    /// holds: `select` hands back a line for each tuple, or the number of
    /// tuples; `insert` inserts its rows one after the other; `delete`
    /// marks tuples as deleted and hands back their number.
    pub fn execute_stmt(&self, stmt: &Stmt, file: Vec<u8>) -> (outcome: QueryOutcome)
        ensures
            spec_stmt_outcome(self.catalogs(), *stmt, file@, outcome),
    {
        match stmt {
            Stmt::SelectStmt(expr, dbname, tablename, where_clause, sort_clause) => {
                match &**expr {
                    Expr::All => {
                        let select_from = SelectFromCommand::new(self.config.clone());
                        match select_from.execute(
                            dbname.as_str(),
                            tablename.as_str(),
                            self.cmgr,
                            where_clause,
                            sort_clause,
                            file,
                        ) {
                            Ok(out) => QueryOutcome {
                                result: Ok(()),
                                lines: out.lines,
                                file: Some(out.file),
                            },
                            Err(msg) => failed(msg),
                        }
                    },
                    Expr::Count => {
                        let count = CountCommand::new(self.config.clone());
                        match count.execute(
                            dbname.as_str(),
                            tablename.as_str(),
                            self.cmgr,
                            where_clause,
                            sort_clause,
                            file,
                        ) {
                            Ok(out) => QueryOutcome {
                                result: Ok(()),
                                lines: out.lines,
                                file: Some(out.file),
                            },
                            Err(msg) => failed(msg),
                        }
                    },
                    _ => failed(String::from_str("Unknown expr")),
                }
            },
            Stmt::InsertStmt(dbname, tablename, keys, value_lists) => {
                self.insert_rows(dbname.as_str(), tablename.as_str(), keys, value_lists, file)
            },
            Stmt::DeleteStmt(dbname, tablename, where_clause) => {
                let delete = DeleteCommand::new(self.config.clone());
                match delete.execute(
                    dbname.as_str(),
                    tablename.as_str(),
                    self.cmgr,
                    where_clause,
                    file,
                ) {
                    Ok(out) => QueryOutcome { result: Ok(()), lines: out.lines, file: Some(out.file) },
                    Err(msg) => failed(msg),
                }
            },
        }
    }

    /// Inserts rows into a table, one after the other, up to the first that
    /// cannot be inserted.
    fn insert_rows(
        &self,
        dbname: &str,
        table_name: &str,
        keys: &Vec<String>,
        value_lists: &Vec<Vec<String>>,
        file: Vec<u8>,
    ) -> (outcome: QueryOutcome)
        ensures
            spec_insert_outcome(
                self.catalogs(),
                dbname@,
                table_name@,
                spec_strings(keys@),
                spec_string_rows(value_lists@),
                file@,
                outcome,
            ),
    {
        let ghost cmgr = self.catalogs();
        let ghost attrs = spec_table_columns(cmgr, dbname@, table_name@);
        let ghost ks = spec_strings(keys@);
        let ghost rows = spec_string_rows(value_lists@);
        let ghost pages0 = spec_file_pages(file@);
        let ghost good = spec_table_ok(cmgr, dbname@, table_name@) && spec_file_wf(file@);
        let insert_into = InsertIntoCommand::new(self.config.clone());
        let mut current = file;
        let mut k: usize = 0;
        while k < value_lists.len()
            invariant
                k <= value_lists@.len(),
                cmgr == self.catalogs(),
                attrs == spec_table_columns(cmgr, dbname@, table_name@),
                ks == spec_strings(keys@),
                rows == spec_string_rows(value_lists@),
                rows.len() == value_lists@.len(),
                pages0 == spec_file_pages(file@),
                good == (spec_table_ok(cmgr, dbname@, table_name@) && spec_file_wf(file@)),
                k == 0 ==> current@ == file@,
                !good ==> k == 0,
                good ==> {
                    &&& spec_file_wf(current@)
                    &&& spec_rows_done(attrs, ks, rows, pages0, 0) == spec_rows_done(
                        attrs,
                        ks,
                        rows,
                        spec_file_pages(current@),
                        k as int,
                    )
                    &&& spec_rows_pages(attrs, ks, rows, pages0, 0) == spec_rows_pages(
                        attrs,
                        ks,
                        rows,
                        spec_file_pages(current@),
                        k as int,
                    )
                },
            decreases value_lists@.len() - k,
        {
            let values = &value_lists[k];
            assert(rows[k as int] == spec_strings(values@));
            let pairs = row_pairs(keys, values);
            let ghost before = current@;
            let (result, after) = insert_into.insert_row(
                dbname,
                table_name,
                pairs,
                self.cmgr,
                current,
            );
            current = after;
            match result {
                Ok(_) => {
                    proof {
                        assert(spec_rel_len(before) == spec_file_pages(before).len());
                        assert(good);
                        let pages = spec_file_pages(before);
                        let row = spec_row_pairs(ks, rows[k as int]);
                        assert(spec_row_ok(attrs, row, pages.len() as int));
                        assert(spec_rows_done(attrs, ks, rows, pages, k as int) == spec_rows_done(
                            attrs,
                            ks,
                            rows,
                            spec_file_pages(current@),
                            k + 1,
                        ));
                        assert(spec_rows_pages(attrs, ks, rows, pages, k as int)
                            == spec_rows_pages(attrs, ks, rows, spec_file_pages(current@), k + 1));
                    }
                },
                Err(msg) => {
                    proof {
                        if good {
                            let pages = spec_file_pages(before);
                            let row = spec_row_pairs(ks, rows[k as int]);
                            assert(spec_rel_len(before) == pages.len());
                            assert(!spec_row_ok(attrs, row, pages.len() as int));
                            assert(spec_rows_done(attrs, ks, rows, pages, k as int) == k);
                            assert(spec_rows_pages(attrs, ks, rows, pages, k as int) == pages);
                        }
                    }
                    return QueryOutcome { result: Err(msg), lines: Vec::new(), file: Some(current) };
                },
            }
            k += 1;
        }
        QueryOutcome { result: Ok(()), lines: Vec::new(), file: Some(current) }
    }

    /// Carries out the statement that a text is, given what the heap file
    /// of its table holds. A text that is no statement fails with the
    /// message that says so and leaves the file as it is.
    pub fn execute_query(&self, query: &str, file: Vec<u8>) -> (outcome: QueryOutcome)
        ensures
            match spec_parse(query@) {
                None => spec_failed(outcome, spec_syntax_message()),
                Some(parsed) => exists|stmt: Stmt|
                    stmt@ == parsed && #[trigger] spec_stmt_outcome(
                        self.catalogs(),
                        stmt,
                        file@,
                        outcome,
                    ),
            },
    {
        match self.parse_query(query) {
            Ok(stmt) => self.execute_stmt(&stmt, file),
            Err(msg) => failed(msg),
        }
    }
}

} // verus!
