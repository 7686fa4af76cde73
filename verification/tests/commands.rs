use csql::commands::Command;
use csql::errors::SerializeError;
use csql::statement::{
    Assignment, BinaryOperator, Expr, Literal, Select, SelectItem, SetExpr, Statement,
    TableFactor,
};
use csql::traits::{Columns, Condition, Executable, Filtering, InsertElement};
use sqlparser::ast;
use sqlparser::dialect::GenericDialect;
use sqlparser::parser::{Parser, ParserError};

fn names(idents: &[ast::Ident]) -> Vec<String> {
    idents.iter().map(|ident| ident.value.clone()).collect()
}

fn literal(value: &ast::Value) -> Literal {
    match value {
        ast::Value::Number(text, _) => Literal::Number(text.clone()),
        ast::Value::SingleQuotedString(text) => Literal::SingleQuotedString(text.clone()),
        ast::Value::DoubleQuotedString(text) => Literal::DoubleQuotedString(text.clone()),
        ast::Value::Boolean(b) => Literal::Boolean(*b),
        ast::Value::Null => Literal::Null,
        other => Literal::Unsupported(format!("{:?}", other)),
    }
}

fn operator(op: &ast::BinaryOperator) -> BinaryOperator {
    match op {
        ast::BinaryOperator::Eq => BinaryOperator::Eq,
        ast::BinaryOperator::Gt => BinaryOperator::Gt,
        ast::BinaryOperator::Lt => BinaryOperator::Lt,
        ast::BinaryOperator::And => BinaryOperator::And,
        ast::BinaryOperator::Or => BinaryOperator::Or,
        _ => BinaryOperator::Unsupported,
    }
}

fn expr(e: &ast::Expr) -> Expr {
    match e {
        ast::Expr::Identifier(ident) => Expr::Identifier(ident.value.clone()),
        ast::Expr::Value(value) => Expr::Value(literal(value)),
        ast::Expr::BinaryOp { left, op, right } => Expr::BinaryOp {
            left: Box::new(expr(left)),
            op: operator(op),
            right: Box::new(expr(right)),
        },
        _ => Expr::Unsupported,
    }
}

fn table_factor(factor: &ast::TableFactor) -> TableFactor {
    match factor {
        ast::TableFactor::Table { name, .. } => TableFactor::Table { name: names(&name.0) },
        _ => TableFactor::Unsupported,
    }
}

fn select_item(item: &ast::SelectItem) -> SelectItem {
    match item {
        ast::SelectItem::UnnamedExpr(e) => SelectItem::UnnamedExpr(expr(e)),
        ast::SelectItem::Wildcard(_) => SelectItem::Wildcard,
        _ => SelectItem::Unsupported,
    }
}

fn set_expr(body: &ast::SetExpr) -> SetExpr {
    match body {
        ast::SetExpr::Select(select) => SetExpr::Select(Select {
            projection: select.projection.iter().map(select_item).collect(),
            from: select.from.iter().map(|t| table_factor(&t.relation)).collect(),
            selection: select.selection.as_ref().map(expr),
        }),
        ast::SetExpr::Values(values) => SetExpr::Values(
            values.rows.iter().map(|row| row.iter().map(expr).collect()).collect(),
        ),
        _ => SetExpr::Unsupported,
    }
}

fn statement(st: &ast::Statement) -> Statement {
    match st {
        ast::Statement::Query(query) => Statement::Query(set_expr(&query.body)),
        ast::Statement::Insert { table_name, columns, source, .. } => Statement::Insert {
            table_name: names(&table_name.0),
            columns: names(columns),
            source: set_expr(&source.body),
        },
        ast::Statement::Update { table, assignments, selection, .. } => Statement::Update {
            table: table_factor(&table.relation),
            assignments: assignments
                .iter()
                .map(|a| Assignment { id: names(&a.id), value: expr(&a.value) })
                .collect(),
            selection: selection.as_ref().map(expr),
        },
        ast::Statement::Delete { from, selection, .. } => Statement::Delete {
            from: from.iter().map(|t| table_factor(&t.relation)).collect(),
            selection: selection.as_ref().map(expr),
        },
        _ => Statement::Unsupported,
    }
}

fn commands(sql: &str) -> Result<Vec<Result<Command, SerializeError>>, ParserError> {
    let dialect = GenericDialect {};
    let statements = Parser::parse_sql(&dialect, sql)?;
    Ok(statements.iter().map(|st| statement(st).deserialize_as_command()).collect())
}

fn s(text: &str) -> String {
    String::from(text)
}

fn equal(column: &str, literal: &str) -> Condition {
    Condition::Equal(s(column), s(literal))
}

#[test]
fn parsing_select() -> Result<(), ParserError>{
    let dialect = GenericDialect {};
    let sql = "
    select * from user, post;
    select name from user where id = 1000;
    select name, email from user where id > 5 and id < 200";
    let statements = Parser::parse_sql(&dialect, sql)?;
    let commands: Result<Vec<_>, _> = statements.iter()
    .map(|st| statement(st).deserialize_as_command())
    .collect();
    if let Ok(comms) = &commands {
        comms.iter().for_each(|c| println!("{:?}", c))
    }
    assert_eq!(
        commands,
        Ok(vec![
            Command::Select {
                tables: vec![s("user"), s("post")],
                columns: Columns::All,
                conditions: Ok(None),
            },
            Command::Select {
                tables: vec![s("user")],
                columns: Columns::ColumnNames(vec![s("name")]),
                conditions: Ok(Some(equal("id", "1000"))),
            },
            Command::Select {
                tables: vec![s("user")],
                columns: Columns::ColumnNames(vec![s("name"), s("email")]),
                conditions: Ok(Some(Condition::And(
                    Box::new(Condition::GreaterThan(s("id"), s("5"))),
                    Box::new(Condition::LessThan(s("id"), s("200"))),
                ))),
            },
        ])
    );
    Ok(())
}

#[test]
fn parsing_update() -> Result<(), ParserError> {
    let dialect = GenericDialect {};
    let sql = "
    update user set name = 'john';
    update user set email = 'john.doe@example.com', password = 'abcd1234' where name = 'john'";
    let statements = Parser::parse_sql(&dialect, sql)?;
    let commands: Result<Vec<_>, _> = statements.iter()
    .map(|st| statement(st).deserialize_as_command())
    .collect();
    if let Ok(comms) = &commands {
        comms.iter().for_each(|c| println!("{:?}", c))
    }
    assert_eq!(
        commands,
        Ok(vec![
            Command::Update {
                table: s("user"),
                updates: vec![(s("name"), Some(s("john")))],
                conditions: Ok(None),
            },
            Command::Update {
                table: s("user"),
                updates: vec![
                    (s("email"), Some(s("john.doe@example.com"))),
                    (s("password"), Some(s("abcd1234"))),
                ],
                conditions: Ok(Some(equal("name", "john"))),
            },
        ])
    );
    Ok(())
}

#[test]
fn parsing_insert() -> Result<(), ParserError> {
    let dialect = GenericDialect {};
    let sql = "
    insert into user values ('john', 'doe', 'john.doe@example.com', 'abcd1234');
    insert into user (
        firstname,
        lastname,
        email,
        password
    ) values (
        'john',
        'doe',
        'john.doe@example.com',
        'abcd1234'
    );";
    let statements = Parser::parse_sql(&dialect, sql)?;
    let commands: Result<Vec<_>, _> = statements.iter()
    .map(|st| statement(st).deserialize_as_command())
    .collect();
    if let Ok(comms) = &commands {
        comms.iter().for_each(|c| println!("{:?}", c))
    }
    assert_eq!(
        commands,
        Ok(vec![
            Command::Insert {
                table: s("user"),
                elements: InsertElement::PlainValues(vec![
                    Some(s("john")),
                    Some(s("doe")),
                    Some(s("john.doe@example.com")),
                    Some(s("abcd1234")),
                ]),
            },
            Command::Insert {
                table: s("user"),
                elements: InsertElement::MappedValues(vec![
                    (s("firstname"), Some(s("john"))),
                    (s("lastname"), Some(s("doe"))),
                    (s("email"), Some(s("john.doe@example.com"))),
                    (s("password"), Some(s("abcd1234"))),
                ]),
            },
        ])
    );
    Ok(())
}

#[test]
fn parsing_delete() -> Result<(), ParserError> {
    let dialect = GenericDialect {};
    let sql = "
    delete from user;
    delete from user where name = 'john';
    delete from user where age < 18 or name = 'john';
    ";
    let statements = Parser::parse_sql(&dialect, sql)?;
    let commands: Result<Vec<_>, _> = statements.iter()
    .map(|st| statement(st).deserialize_as_command())
    .collect();
    if let Ok(comms) = &commands {
        comms.iter().for_each(|c| println!("{:?}", c))
    } else {
        println!("{:?}", commands);
    }
    assert_eq!(
        commands,
        Ok(vec![
            Command::Delete { table: s("user"), conditions: Ok(None) },
            Command::Delete { table: s("user"), conditions: Ok(Some(equal("name", "john"))) },
            Command::Delete {
                table: s("user"),
                conditions: Ok(Some(Condition::Or(
                    Box::new(Condition::LessThan(s("age"), s("18"))),
                    Box::new(equal("name", "john")),
                ))),
            },
        ])
    );
    Ok(())
}

#[test]
fn where_clause_lowers_to_a_condition_tree() {
    let id = || Box::new(Expr::Identifier(s("id")));
    let number = |text: &str| Box::new(Expr::Value(Literal::Number(s(text))));
    let filter = Some(Expr::BinaryOp {
        left: Box::new(Expr::BinaryOp { left: id(), op: BinaryOperator::Gt, right: number("5") }),
        op: BinaryOperator::And,
        right: Box::new(Expr::BinaryOp {
            left: id(),
            op: BinaryOperator::Lt,
            right: number("200"),
        }),
    });
    assert_eq!(
        filter.deserialize_conditions(),
        Ok(Some(Condition::And(
            Box::new(Condition::GreaterThan(s("id"), s("5"))),
            Box::new(Condition::LessThan(s("id"), s("200"))),
        )))
    );
    let absent: Option<Expr> = None;
    assert_eq!(absent.deserialize_conditions(), Ok(None));
}

#[test]
fn comparison_puts_the_column_first_whichever_side_it_is_on() {
    let all = commands(
        "select a from t where 'x' = name;
         select a from t where name = 'x';
         select a from t where 7 > age;
         select a from t where 'y' < name;
         select a from t where done = true",
    )
    .unwrap();
    let conditions: Vec<_> = all
        .into_iter()
        .map(|c| match c {
            Ok(Command::Select { conditions, .. }) => conditions,
            other => panic!("unexpected outcome: {:?}", other),
        })
        .collect();
    assert_eq!(
        conditions,
        vec![
            Ok(Some(equal("name", "x"))),
            Ok(Some(equal("name", "x"))),
            Ok(Some(Condition::GreaterThan(s("age"), s("7")))),
            Ok(Some(Condition::LessThan(s("name"), s("y")))),
            Ok(Some(equal("done", "true"))),
        ]
    );
}

#[test]
fn unsupported_filters_are_not_implemented() {
    let reason = |sql: &str| match commands(sql).unwrap().remove(0) {
        Ok(Command::Select { conditions: Err(SerializeError::NotImplemented(reason)), .. }) => {
            reason
        },
        other => panic!("unexpected outcome: {:?}", other),
    };
    assert_eq!(
        reason("select a from t where a = b"),
        "Types not compatible for comparison with operator '='"
    );
    assert_eq!(
        reason("select a from t where 1 > 2"),
        "Types not compatible for comparison with operator '>'"
    );
    assert_eq!(
        reason("select a from t where a < null"),
        "Types not compatible for comparison with operator '<'"
    );
    assert_eq!(
        reason("select a from t where a >= 1"),
        "Operator not compatible with a combination of comparisons"
    );
    assert_eq!(reason("select a from t where a"), "Types not compatible for comparison");
    assert_eq!(
        reason("select a from t where a in (1, 2)"),
        "Types not compatible for comparison"
    );
    // The failing side of a connective fails the whole, the left side first.
    assert_eq!(
        reason("select a from t where a = 1 and (b like 'x')"),
        "Types not compatible for comparison"
    );
    assert_eq!(
        reason("select a from t where a >= 1 or b = c"),
        "Operator not compatible with a combination of comparisons"
    );
}

#[test]
fn select_refuses_other_projections_and_bodies() {
    let all = commands(
        "select a as b from t;
         select count(a) from t;
         select a, * from t;
         select a from t union select a from u;
         create table t (a int)",
    )
    .unwrap();
    assert_eq!(
        all,
        vec![
            Err(SerializeError::NotImplemented(s("Only identifiers and aliases are implemented"))),
            Err(SerializeError::NotImplemented(s("Only identifiers and aliases are implemented"))),
            Ok(Command::Select {
                tables: vec![s("t")],
                columns: Columns::All,
                conditions: Ok(None),
            }),
            Err(SerializeError::UselessToImplement),
            Err(SerializeError::UselessToImplement),
        ]
    );
}

#[test]
fn select_gathers_every_segment_of_every_plain_table() {
    let all = commands("select a from db.t, (select 1) as d, u").unwrap();
    assert_eq!(
        all,
        vec![Ok(Command::Select {
            tables: vec![s("db"), s("t"), s("u")],
            columns: Columns::ColumnNames(vec![s("a")]),
            conditions: Ok(None),
        })]
    );
}

#[test]
fn insert_reads_the_first_row_only() {
    let all = commands(
        "insert into t values (1, true, false, null, 'a', 'b'), (2, 3, 4, 5, 6, 7);
         insert into db.t (x, y, z) values (1, null);
         insert into t (x) values (1, 2);
         insert into t select a from u;
         insert into t values (1, ?);
         insert into t values (1, a);
         insert into t (x, y) values (a, ?)",
    )
    .unwrap();
    assert_eq!(
        all,
        vec![
            Ok(Command::Insert {
                table: s("t"),
                elements: InsertElement::PlainValues(vec![
                    Some(s("1")),
                    Some(s("true")),
                    Some(s("false")),
                    None,
                    Some(s("a")),
                    Some(s("b")),
                ]),
            }),
            Ok(Command::Insert {
                table: s("db"),
                elements: InsertElement::MappedValues(vec![(s("x"), Some(s("1"))), (s("y"), None)]),
            }),
            Err(SerializeError::NotImplementable),
            Err(SerializeError::NotImplementable),
            Err(SerializeError::NotImplemented(s(
                "Type not implemented for the value : Placeholder(\"?\")"
            ))),
            Err(SerializeError::NotImplementable),
            Err(SerializeError::NotImplementable),
        ]
    );
}

#[test]
fn update_maps_columns_to_values() {
    let all = commands(
        "update t set a = 1, b = null, c = false where d = 'x';
         update t set a = b;
         update t set a = ?;
         update t set a = 1 where b like 'x'",
    )
    .unwrap();
    assert_eq!(
        all,
        vec![
            Ok(Command::Update {
                table: s("t"),
                updates: vec![(s("a"), Some(s("1"))), (s("b"), None), (s("c"), Some(s("false")))],
                conditions: Ok(Some(equal("d", "x"))),
            }),
            Err(SerializeError::NotImplementable),
            Err(SerializeError::NotImplemented(s(
                "Type not implemented for the value : Placeholder(\"?\")"
            ))),
            Ok(Command::Update {
                table: s("t"),
                updates: vec![(s("a"), Some(s("1")))],
                conditions: Err(SerializeError::NotImplemented(s(
                    "Types not compatible for comparison"
                ))),
            }),
        ]
    );
}

#[test]
fn statements_without_their_parts_are_not_implementable() {
    let value = || Expr::Value(Literal::Number(s("1")));
    let cases = vec![
        Statement::Insert {
            table_name: vec![],
            columns: vec![],
            source: SetExpr::Values(vec![vec![value()]]),
        },
        Statement::Insert { table_name: vec![s("t")], columns: vec![], source: SetExpr::Values(vec![]) },
        Statement::Insert { table_name: vec![s("t")], columns: vec![], source: SetExpr::Unsupported },
        Statement::Update {
            table: TableFactor::Table { name: vec![] },
            assignments: vec![],
            selection: None,
        },
        Statement::Update { table: TableFactor::Unsupported, assignments: vec![], selection: None },
        Statement::Update {
            table: TableFactor::Table { name: vec![s("t")] },
            assignments: vec![Assignment { id: vec![], value: value() }],
            selection: None,
        },
        Statement::Delete { from: vec![], selection: None },
        Statement::Delete { from: vec![TableFactor::Table { name: vec![] }], selection: None },
    ];
    for case in cases {
        assert_eq!(case.deserialize_as_command(), Err(SerializeError::NotImplementable));
    }
}

#[test]
fn delete_from_what_is_no_plain_table_names_the_empty_table() {
    let case = Statement::Delete { from: vec![TableFactor::Unsupported], selection: None };
    assert_eq!(
        case.deserialize_as_command(),
        Ok(Command::Delete { table: String::new(), conditions: Ok(None) })
    );
}

#[test]
fn other_statements_are_useless_to_implement() {
    assert_eq!(
        Statement::Unsupported.deserialize_as_command(),
        Err(SerializeError::UselessToImplement)
    );
    assert_eq!(
        Statement::Query(SetExpr::Values(vec![])).deserialize_as_command(),
        Err(SerializeError::UselessToImplement)
    );
}

#[test]
fn double_quoted_strings_are_literals() {
    let filter = Some(Expr::BinaryOp {
        left: Box::new(Expr::Value(Literal::DoubleQuotedString(s("y")))),
        op: BinaryOperator::Lt,
        right: Box::new(Expr::Identifier(s("name"))),
    });
    assert_eq!(
        filter.deserialize_conditions(),
        Ok(Some(Condition::LessThan(s("name"), s("y"))))
    );
    let insert = Statement::Insert {
        table_name: vec![s("t")],
        columns: vec![],
        source: SetExpr::Values(vec![vec![Expr::Value(Literal::DoubleQuotedString(s("b")))]]),
    };
    assert_eq!(
        insert.deserialize_as_command(),
        Ok(Command::Insert {
            table: s("t"),
            elements: InsertElement::PlainValues(vec![Some(s("b"))]),
        })
    );
}
