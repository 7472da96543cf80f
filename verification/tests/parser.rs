use rowstore::ast::{Statement, Value};
use rowstore::parser::{Error, Parser};
use rowstore::tokenizer::Tokenizer;

fn parse(input: &str) -> Result<Statement, Error> {
    let tokens = Tokenizer::new(input).parse();
    Parser::new(tokens).parse()
}

/// Parser acceptance, `SELECT` side: the listed columns and the table,
/// nothing renamed, no `WHERE`, no pagination.
#[test]
fn accepts_simple_select() {
    let stmt = parse("SELECT id FROM users").expect("should parse");
    match stmt {
        Statement::Select(s) => {
            let columns: Vec<&str> = s.selections.iter().map(|c| c.column.as_str()).collect();
            assert_eq!(columns, vec!["id"]);
            assert!(s.selections.iter().all(|c| c.alias.is_none()));
            assert_eq!(s.table, "users");
            assert!(s.where_clause.is_none());
            assert!(s.pagination.is_none());
        }
        _ => panic!("expected a SELECT"),
    }
}

/// Parser acceptance, `INSERT` side: the table and the ordered values.
#[test]
fn accepts_simple_insert() {
    let stmt = parse("INSERT INTO users VALUES 1, \"bob\", \"bob@x.com\"").expect("should parse");
    match stmt {
        Statement::Insert(s) => {
            assert_eq!(s.table, "users");
            assert!(s.columns.is_none());
            assert_eq!(
                s.values,
                vec![
                    Value::Int(1),
                    Value::String(String::from("bob")),
                    Value::String(String::from("bob@x.com")),
                ]
            );
        }
        _ => panic!("expected an INSERT"),
    }
}

#[test]
fn accepts_multiple_columns() {
    let stmt = parse("SELECT 'id', 'name' FROM 'users'").expect("should parse");
    match stmt {
        Statement::Select(s) => {
            let columns: Vec<&str> = s.selections.iter().map(|c| c.column.as_str()).collect();
            assert_eq!(columns, vec!["id", "name"]);
            assert_eq!(s.table, "users");
        }
        _ => panic!("expected a SELECT"),
    }
}

/// Parser rejection: an empty column list fails.
#[test]
fn rejects_select_without_columns() {
    let r = parse("SELECT FROM users");
    assert_eq!(r.unwrap_err(), Error::NoMatch);
}

/// Parser rejection: an empty value list fails.
#[test]
fn rejects_insert_without_values() {
    let r = parse("INSERT INTO users VALUES");
    assert_eq!(r.unwrap_err(), Error::NoMatch);
}

/// A comma not followed by the expected element fails.
#[test]
fn rejects_dangling_comma() {
    assert!(parse("SELECT id, FROM users").is_err());
    assert!(parse("INSERT INTO users VALUES 1,").is_err());
}

#[test]
fn rejects_garbage() {
    assert!(parse("").is_err());
    assert!(parse("UPDATE users").is_err());
    assert!(parse("FROM users SELECT id").is_err());
}

/// Leftover tokens after a full match are ignored.
#[test]
fn ignores_trailing_tokens() {
    let stmt = parse("SELECT id FROM users WHERE id = 2;").expect("should parse");
    match stmt {
        Statement::Select(s) => {
            assert_eq!(s.table, "users");
            assert!(s.where_clause.is_none());
        }
        _ => panic!("expected a SELECT"),
    }
}
