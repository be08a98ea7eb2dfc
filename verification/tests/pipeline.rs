use ddl_parser::interpreter::{Field, Interpreter, TableStruct};
use ddl_parser::lexer::{LexError, Lexer, LexicalToken};
use ddl_parser::parser::{Ast, ColumnType, ParseError, Parser};

#[test]
fn lexer_test_run() {
    let lexer = Lexer::new();
    let result = lexer
        .run("create table not NULL int integer json varchar date ( ) , ; \n \t test_test")
        .unwrap_or_default();
    assert_eq!(
        result,
        vec![
            LexicalToken::CreateTable,
            LexicalToken::NotNull,
            LexicalToken::Int,
            LexicalToken::Int,
            LexicalToken::Json,
            LexicalToken::Varchar,
            LexicalToken::Date,
            LexicalToken::LParen,
            LexicalToken::RParen,
            LexicalToken::Comma,
            LexicalToken::Semicolon,
            LexicalToken::Text("test_test".into())
        ]
    );
}

#[test]
fn parser_test_run() {
    let parser = Parser::new();
    let tokens = vec![
        LexicalToken::CreateTable,
        LexicalToken::Text("table_name".into()),
        LexicalToken::LParen,
        LexicalToken::Text("column_name1".into()),
        LexicalToken::Int,
        LexicalToken::NotNull,
        LexicalToken::Comma,
        LexicalToken::Text("column_name2".into()),
        LexicalToken::Date,
        LexicalToken::Comma,
        LexicalToken::RParen,
        LexicalToken::Semicolon,
    ];
    let result = parser.run(tokens);
    assert_eq!(
        result.ok(),
        Some(Ast::Expr {
            table_name: "table_name".into(),
            expr1: Box::from(Ast::Expr1 {
                expr2: Box::from(Ast::Expr2 {
                    name: "column_name1".into(),
                    column_type: ColumnType::Int,
                    null: false
                }),
                expr1: Some(Box::from(Ast::Expr1 {
                    expr2: Box::from(Ast::Expr2 {
                        name: "column_name2".into(),
                        column_type: ColumnType::Date,
                        null: true
                    }),
                    expr1: None
                }))
            })
        })
    );
}

#[test]
fn interpreter_test_run() {
    let interpreter = Interpreter {};
    let ast = Ast::Expr {
        table_name: "table_name".into(),
        expr1: Box::new(Ast::Expr1 {
            expr2: Box::new(Ast::Expr2 {
                name: "name".into(),
                column_type: ColumnType::Int,
                null: true,
            }),
            expr1: None,
        }),
    };
    let result = interpreter.run(ast);
    let fields = vec![Field {
        name: "name".into(),
        field_type: "Int".into(),
    }];
    assert_eq!(
        result,
        TableStruct {
            name: "table_name".into(),
            fields
        }
    )
}

fn pipeline(input: &str) -> Result<TableStruct, String> {
    let lexer = Lexer::new();
    let tokens = lexer.run(input).map_err(|e| format!("{:?}", e))?;
    let parser = Parser::new();
    let ast = parser.run(tokens).map_err(|e| format!("{:?}", e))?;
    let interpreter = Interpreter {};
    Ok(interpreter.run(ast))
}

#[test]
fn scenario_two_columns() {
    let table = pipeline("CREATE TABLE users (id INT NOT NULL, name VARCHAR,);").unwrap();
    assert_eq!(
        table,
        TableStruct {
            name: "users".into(),
            fields: vec![
                Field {
                    name: "id".into(),
                    field_type: "Int".into()
                },
                Field {
                    name: "name".into(),
                    field_type: "Varchar".into()
                },
            ]
        }
    );
}

#[test]
fn scenario_single_json_column() {
    let table = pipeline("CREATE TABLE t (x JSON,);").unwrap();
    assert_eq!(
        table,
        TableStruct {
            name: "t".into(),
            fields: vec![Field {
                name: "x".into(),
                field_type: "Json".into()
            }]
        }
    );
}

#[test]
fn scenario_missing_semicolon_is_eof() {
    let lexer = Lexer::new();
    let tokens = lexer.run("CREATE TABLE t (x JSON,)").unwrap();
    let parser = Parser::new();
    let result = parser.run(tokens);
    assert!(matches!(result, Err(ParseError::Eof)));
}

#[test]
fn scenario_unrecognized_byte_position() {
    let lexer = Lexer::new();
    let result = lexer.run("CREATE TABLE t (x @ JSON,);");
    assert_eq!(result, Err(LexError::Invalid(18, b'@')));
}

#[test]
fn keywords_are_case_insensitive() {
    let lexer = Lexer::new();
    for input in ["create table", "CREATE TABLE", "Create Table"] {
        let tokens = lexer.run(input).unwrap();
        assert_eq!(tokens, vec![LexicalToken::CreateTable]);
    }
    assert_eq!(
        lexer.run("InTeGeR vArChAr Not Null dAtE jSoN iNt").unwrap(),
        vec![
            LexicalToken::Int,
            LexicalToken::Varchar,
            LexicalToken::NotNull,
            LexicalToken::Date,
            LexicalToken::Json,
            LexicalToken::Int,
        ]
    );
}

#[test]
fn identifier_stops_at_comma() {
    let lexer = Lexer::new();
    let tokens = lexer.run("name,").unwrap();
    assert_eq!(
        tokens,
        vec![LexicalToken::Text("name".into()), LexicalToken::Comma]
    );
}

#[test]
fn keyword_prefix_wins_over_identifier() {
    let lexer = Lexer::new();
    assert_eq!(lexer.run("integer").unwrap(), vec![LexicalToken::Int]);
    assert_eq!(
        lexer.run("intx").unwrap(),
        vec![LexicalToken::Int, LexicalToken::Text("x".into())]
    );
}

#[test]
fn empty_input_tokenizes_to_nothing() {
    let lexer = Lexer::new();
    assert_eq!(lexer.run("").unwrap(), vec![]);
}

#[test]
fn non_ascii_byte_is_invalid_at_its_first_byte() {
    let lexer = Lexer::new();
    let result = lexer.run("é");
    assert_eq!(result, Err(LexError::Invalid(0, 0xC3)));
}

#[test]
fn keyword_phrases_need_their_exact_spacing() {
    let lexer = Lexer::new();
    assert_eq!(
        lexer.run("not  null").unwrap(),
        vec![
            LexicalToken::Text("not".into()),
            LexicalToken::Text("null".into())
        ]
    );
}

#[test]
fn tokens_after_semicolon_are_left_unread() {
    let lexer = Lexer::new();
    let tokens = lexer.run("CREATE TABLE t (x INT,); JUNK").unwrap();
    let parser = Parser::new();
    assert!(parser.run(tokens).is_ok());
}

#[test]
fn trailing_comma_is_mandatory() {
    let lexer = Lexer::new();
    let tokens = lexer.run("CREATE TABLE t (x JSON);").unwrap();
    let parser = Parser::new();
    let result = parser.run(tokens);
    assert!(matches!(
        result,
        Err(ParseError::UnexpectedToken(LexicalToken::RParen))
    ));
}

#[test]
fn not_null_sets_nullability_false() {
    let lexer = Lexer::new();
    let tokens = lexer
        .run("CREATE TABLE t (a INT NOT NULL, b INT,);")
        .unwrap();
    let parser = Parser::new();
    let ast = parser.run(tokens).unwrap();
    let expected = Ast::Expr {
        table_name: "t".into(),
        expr1: Box::new(Ast::Expr1 {
            expr2: Box::new(Ast::Expr2 {
                name: "a".into(),
                column_type: ColumnType::Int,
                null: false,
            }),
            expr1: Some(Box::new(Ast::Expr1 {
                expr2: Box::new(Ast::Expr2 {
                    name: "b".into(),
                    column_type: ColumnType::Int,
                    null: true,
                }),
                expr1: None,
            })),
        }),
    };
    assert_eq!(ast, expected);
}

#[test]
fn field_count_matches_column_count() {
    let table = pipeline("CREATE TABLE t (a INT, b DATE, c VARCHAR,);").unwrap();
    assert_eq!(table.fields.len(), 3);
    assert_eq!(
        table,
        TableStruct {
            name: "t".into(),
            fields: vec![
                Field {
                    name: "a".into(),
                    field_type: "Int".into()
                },
                Field {
                    name: "b".into(),
                    field_type: "Date".into()
                },
                Field {
                    name: "c".into(),
                    field_type: "Varchar".into()
                },
            ]
        }
    );
}
