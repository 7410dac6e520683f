use minidb::ast::{Expr, Stmt};
use minidb::parser::{tokenize, StatementParser, Token};

fn parse(query: &str) -> Result<Stmt, String> {
    StatementParser::new().parse(query)
}

#[test]
fn select_stmt() {
    assert!(StatementParser::new().parse("select * from db.tbl").is_ok());
    assert!(StatementParser::new().parse("select count() from db.tbl").is_ok());
}

#[test]
fn select_stmt_with_where() {
    assert!(StatementParser::new().parse("select * from db.tbl where true").is_ok());
    assert!(StatementParser::new().parse("select * from db.tbl where false").is_ok());
    assert!(StatementParser::new().parse("select * from db.tbl where false = true").is_ok());
}

#[test]
fn insert_stmt() {
    assert!(StatementParser::new().parse("insert into db.tbl (id, age) values (4, 20)").is_ok());
    assert!(StatementParser::new().parse(r#"insert into db.tbl (id, age) values ('a', 'b')"#).is_ok());
    assert!(StatementParser::new().parse(r#"insert into db.tbl (id, age) values ("a", "b")"#).is_ok());
    assert!(StatementParser::new().parse("insert into db.tbl (id, age) values (1, 10), (4, 20)").is_ok());
}

#[test]
fn delete_stmt() {
    assert!(StatementParser::new().parse("delete from db.tbl").is_ok());
}

#[test]
fn select_is_read_into_its_parts() {
    match parse("select * from db1.t where id = 1 order by age").unwrap() {
        Stmt::SelectStmt(what, db, table, qual, sort) => {
            assert!(matches!(*what, Expr::All));
            assert_eq!(db, "db1");
            assert_eq!(table, "t");
            match *qual.unwrap() {
                Expr::OpEq(l, r) => {
                    assert!(matches!(*l, Expr::ColumnRef(ref n) if n == "id"));
                    assert!(matches!(*r, Expr::Number(1)));
                }
                _ => panic!("the condition is an equality"),
            }
            assert_eq!(sort, Some("age".to_string()));
        }
        _ => panic!("a select statement"),
    }
    match parse("select count() from db1.t").unwrap() {
        Stmt::SelectStmt(what, _, _, qual, sort) => {
            assert!(matches!(*what, Expr::Count));
            assert!(qual.is_none());
            assert!(sort.is_none());
        }
        _ => panic!("a select statement"),
    }
}

#[test]
fn equality_groups_to_the_left() {
    match parse("delete from d.t where a = 1 = true").unwrap() {
        Stmt::DeleteStmt(db, table, qual) => {
            assert_eq!((db.as_str(), table.as_str()), ("d", "t"));
            match *qual.unwrap() {
                Expr::OpEq(l, r) => {
                    assert!(matches!(*r, Expr::Bool(true)));
                    match *l {
                        Expr::OpEq(a, one) => {
                            assert!(matches!(*a, Expr::ColumnRef(ref n) if n == "a"));
                            assert!(matches!(*one, Expr::Number(1)));
                        }
                        _ => panic!("the left side is an equality"),
                    }
                }
                _ => panic!("the condition is an equality"),
            }
        }
        _ => panic!("a delete statement"),
    }
}

#[test]
fn insert_is_read_into_names_and_rows() {
    match parse("insert into db1.t (id, age) values (1, 10), (-2, 'x'), (\"a b\", 3)").unwrap() {
        Stmt::InsertStmt(db, table, keys, rows) => {
            assert_eq!(db, "db1");
            assert_eq!(table, "t");
            assert_eq!(keys, vec!["id", "age"]);
            assert_eq!(rows, vec![vec!["1", "10"], vec!["-2", "x"], vec!["a b", "3"]]);
        }
        _ => panic!("an insert statement"),
    }
}

#[test]
fn text_that_is_no_statement_is_refused() {
    for bad in [
        "",
        "   ",
        "select",
        "select * from",
        "select * from db",
        "select * from db.",
        "select * from db.tbl where",
        "select * from db.tbl where =",
        "select * from db.tbl where a =",
        "select * from db.tbl order age",
        "select * from db.tbl order by",
        "select * from db.tbl order by age extra",
        "select id from db.tbl",
        "select count( ) from db.tbl",
        "select * from db.tbl where 99999999999 = 1",
        "select * from db.tbl where select = 1",
        "insert into db.tbl () values (1)",
        "insert into db.tbl (id) values",
        "insert into db.tbl (id) values ()",
        "insert into db.tbl (id) values (1",
        "insert into db.tbl (id) values (1),",
        "insert into db.tbl (id,) values (1)",
        "insert into db.tbl (id) values (x)",
        "insert into db.tbl (id) values ('open)",
        "insert into db.tbl id values (1)",
        "delete db.tbl",
        "delete from db.tbl where",
        "delete from db.tbl;",
        "update db.tbl",
        "SELECT * from db.tbl",
        "select * from db.tbl where a # 1",
    ] {
        assert_eq!(parse(bad).err(), Some("Invalid syntax".to_string()), "{:?}", bad);
    }
}

#[test]
fn blanks_and_line_ends_separate_tokens() {
    assert!(parse("  select\t*\nfrom db . tbl\r\n").is_ok());
    assert!(parse("select*from db.tbl").is_ok());
    assert!(parse("insert into db.tbl(id,age)values(1,2),(3,4)").is_ok());
    assert!(parse("selectcount() from db.tbl").is_err());
}

#[test]
fn text_is_cut_into_tokens() {
    let chars: Vec<char> = "select count() from a_1.B where x = -12 'it' \"q\"".chars().collect();
    let tokens = tokenize(&chars).unwrap();
    assert_eq!(tokens.len(), 12);
    assert!(matches!(tokens[0], Token::Select));
    assert!(matches!(tokens[1], Token::Count));
    assert!(matches!(tokens[2], Token::From));
    assert!(matches!(tokens[3], Token::Ident(ref s) if s == "a_1"));
    assert!(matches!(tokens[4], Token::Dot));
    assert!(matches!(tokens[5], Token::Ident(ref s) if s == "B"));
    assert!(matches!(tokens[6], Token::Where));
    assert!(matches!(tokens[7], Token::Ident(ref s) if s == "x"));
    assert!(matches!(tokens[8], Token::Equals));
    assert!(matches!(tokens[9], Token::Number(ref s) if s == "-12"));
    assert!(matches!(tokens[10], Token::Text(ref s) if s == "it"));
    assert!(matches!(tokens[11], Token::Text(ref s) if s == "q"));

    let chars: Vec<char> = "count (".chars().collect();
    let tokens = tokenize(&chars).unwrap();
    assert!(matches!(tokens[0], Token::Ident(ref s) if s == "count"));
    assert!(matches!(tokens[1], Token::LParen));
    let chars: Vec<char> = "a - b".chars().collect();
    assert!(tokenize(&chars).is_none());
    let chars: Vec<char> = "'never closed".chars().collect();
    assert!(tokenize(&chars).is_none());
}
