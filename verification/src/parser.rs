//! Parser: a predictive recursive-descent parser over the token sequence,
//! with one token of lookahead, for the fixed grammar
//!
//! ```text
//! Statement  = "CREATE TABLE" Identifier "(" Body ")" ";"
//! Body       = ColumnDecl { ColumnDecl }
//! ColumnDecl = Identifier ColumnType [ "NOT NULL" ] ","
//! ColumnType = "INT" | "JSON" | "VARCHAR" | "DATE"
//! ```
//!
//! The comma after each column declaration is mandatory, the last one
//! included: that is a property of this grammar, not an accident. What a
//! parse means is specified by [`spec_parse_stmt`] over the token models.

use vstd::prelude::*;
use crate::lexer::{LexicalToken, TokenModel, tokens_view};

verus! {

/// The type of one column; a closed enumeration.
#[derive(Debug, Clone, PartialEq, Eq, Structural)]
pub enum ColumnType {
    Int,
    Json,
    Varchar,
    Date,
}

/// The abstract syntax tree: a statement owning a right-leaning list of
/// column declarations, each declaration a leaf.
#[derive(Debug)]
pub enum Ast {
    Expr2 { name: String, column_type: ColumnType, null: bool },
    Expr1 { expr2: Box<Ast>, expr1: Option<Box<Ast>> },
    Expr { table_name: String, expr1: Box<Ast> },
}

/// Structural equality of trees, with identifier text compared by its
/// characters.
pub open spec fn ast_eq(a: Ast, b: Ast) -> bool
    decreases a,
{
    match (a, b) {
        (
            Ast::Expr2 { name: n1, column_type: t1, null: u1 },
            Ast::Expr2 { name: n2, column_type: t2, null: u2 },
        ) => n1@ == n2@ && t1 == t2 && u1 == u2,
        (Ast::Expr1 { expr2: a1, expr1: r1 }, Ast::Expr1 { expr2: a2, expr1: r2 }) => ast_eq(
            *a1,
            *a2,
        ) && match (r1, r2) {
            (Some(x), Some(y)) => ast_eq(*x, *y),
            (None, None) => true,
            _ => false,
        },
        (Ast::Expr { table_name: n1, expr1: a1 }, Ast::Expr { table_name: n2, expr1: a2 }) => n1@
            == n2@ && ast_eq(*a1, *a2),
        _ => false,
    }
}

impl PartialEq for Ast {
    fn eq(&self, other: &Self) -> bool
        decreases *self,
    {
        match (self, other) {
            (
                Ast::Expr2 { name: n1, column_type: t1, null: u1 },
                Ast::Expr2 { name: n2, column_type: t2, null: u2 },
            ) => *n1 == *n2 && *t1 == *t2 && *u1 == *u2,
            (Ast::Expr1 { expr2: a1, expr1: r1 }, Ast::Expr1 { expr2: a2, expr1: r2 }) => **a1
                == **a2 && match (r1, r2) {
                (Some(x), Some(y)) => **x == **y,
                (None, None) => true,
                _ => false,
            },
            (Ast::Expr { table_name: n1, expr1: a1 }, Ast::Expr { table_name: n2, expr1: a2 }) =>
                *n1 == *n2 && **a1 == **a2,
            _ => false,
        }
    }
}

impl vstd::std_specs::cmp::PartialEqSpecImpl for Ast {
    open spec fn obeys_eq_spec() -> bool {
        true
    }

    open spec fn eq_spec(&self, other: &Self) -> bool {
        ast_eq(*self, *other)
    }
}

/// Syntax failure: a token standing where the grammar does not permit it, or
/// the token stream ending while more is required.
#[derive(Debug)]
pub enum ParseError {
    UnexpectedToken(LexicalToken),
    Eof,
}

/// Mathematical model of a syntax failure.
pub enum ParseErrorModel {
    UnexpectedToken(TokenModel),
    Eof,
}

impl View for ParseError {
    type V = ParseErrorModel;

    open spec fn view(&self) -> ParseErrorModel {
        match self {
            ParseError::UnexpectedToken(t) => ParseErrorModel::UnexpectedToken(t@),
            ParseError::Eof => ParseErrorModel::Eof,
        }
    }
}

/// Model of one parsed column declaration.
pub struct ColumnModel {
    pub name: Seq<char>,
    pub column_type: ColumnType,
    pub null: bool,
}

/// Model of a parsed statement: the table name and the columns in
/// declaration order.
pub struct StatementModel {
    pub table_name: Seq<char>,
    pub columns: Seq<ColumnModel>,
}

/// The token that names a column type, if this is one.
pub open spec fn spec_parse_type(t: TokenModel) -> Option<ColumnType> {
    match t {
        TokenModel::Int => Some(ColumnType::Int),
        TokenModel::Json => Some(ColumnType::Json),
        TokenModel::Varchar => Some(ColumnType::Varchar),
        TokenModel::Date => Some(ColumnType::Date),
        _ => None,
    }
}

/// Parsing one column declaration at token index `i`: identifier, type,
/// optional `NOT NULL`, and the mandatory comma. A column is nullable unless
/// `NOT NULL` stands between its type and the comma. Returns the column and
/// the index just past the comma.
pub open spec fn spec_parse_expr2(toks: Seq<TokenModel>, i: int) -> Result<
    (ColumnModel, int),
    ParseErrorModel,
> {
    if i >= toks.len() {
        Err(ParseErrorModel::Eof)
    } else {
        match toks[i] {
            TokenModel::Text(name) => {
                if i + 1 >= toks.len() {
                    Err(ParseErrorModel::Eof)
                } else {
                    match spec_parse_type(toks[i + 1]) {
                        None => Err(ParseErrorModel::UnexpectedToken(toks[i + 1])),
                        Some(column_type) => {
                            let has_not_null = i + 2 < toks.len() && toks[i + 2]
                                == TokenModel::NotNull;
                            let j = if has_not_null {
                                i + 3
                            } else {
                                i + 2
                            };
                            if j >= toks.len() {
                                Err(ParseErrorModel::Eof)
                            } else if toks[j] == TokenModel::Comma {
                                Ok((ColumnModel { name, column_type, null: !has_not_null }, j + 1))
                            } else {
                                Err(ParseErrorModel::UnexpectedToken(toks[j]))
                            }
                        },
                    }
                }
            },
            _ => Err(ParseErrorModel::UnexpectedToken(toks[i])),
        }
    }
}

pub proof fn lemma_parse_expr2_advances(toks: Seq<TokenModel>, i: int)
    requires
        0 <= i,
    ensures
        match spec_parse_expr2(toks, i) {
            Ok((c, j)) => i + 3 <= j <= toks.len(),
            Err(_) => true,
        },
{
}

/// Default nullability: a column declaration parses as nullable exactly when
/// no `NOT NULL` token stands between its type and its comma.
pub proof fn lemma_default_nullability(toks: Seq<TokenModel>, i: int)
    requires
        0 <= i,
    ensures
        match spec_parse_expr2(toks, i) {
            Ok((c, j)) => c.null <==> !(i + 2 < toks.len() && toks[i + 2] == TokenModel::NotNull),
            Err(_) => true,
        },
{
}

/// Parsing the statement body at token index `i`: one column declaration,
/// then more for as long as the next token is an identifier. Returns the
/// columns in declaration order and the index of the first unconsumed token.
pub open spec fn spec_parse_expr1(toks: Seq<TokenModel>, i: int) -> Result<
    (Seq<ColumnModel>, int),
    ParseErrorModel,
>
    decreases toks.len() - i when 0 <= i
{
    match spec_parse_expr2(toks, i) {
        Err(e) => Err(e),
        Ok((c, j)) => {
            proof {
                lemma_parse_expr2_advances(toks, i);
            }
            if j < toks.len() && (toks[j] matches TokenModel::Text(_)) {
                match spec_parse_expr1(toks, j) {
                    Err(e) => Err(e),
                    Ok((cs, k)) => Ok((seq![c] + cs, k)),
                }
            } else {
                Ok((seq![c], j))
            }
        },
    }
}

/// Parsing a whole statement: `CREATE TABLE`, the table name, `(`, the body,
/// `)`, `;`. Tokens after the semicolon are left unread.
pub open spec fn spec_parse_stmt(toks: Seq<TokenModel>) -> Result<
    StatementModel,
    ParseErrorModel,
> {
    if toks.len() == 0 {
        Err(ParseErrorModel::Eof)
    } else if toks[0] != TokenModel::CreateTable {
        Err(ParseErrorModel::UnexpectedToken(toks[0]))
    } else if toks.len() == 1 {
        Err(ParseErrorModel::Eof)
    } else {
        match toks[1] {
            TokenModel::Text(table_name) => {
                if toks.len() == 2 {
                    Err(ParseErrorModel::Eof)
                } else if toks[2] != TokenModel::LParen {
                    Err(ParseErrorModel::UnexpectedToken(toks[2]))
                } else {
                    match spec_parse_expr1(toks, 3) {
                        Err(e) => Err(e),
                        Ok((columns, j)) => {
                            if j >= toks.len() {
                                Err(ParseErrorModel::Eof)
                            } else if toks[j] != TokenModel::RParen {
                                Err(ParseErrorModel::UnexpectedToken(toks[j]))
                            } else if j + 1 >= toks.len() {
                                Err(ParseErrorModel::Eof)
                            } else if toks[j + 1] != TokenModel::Semicolon {
                                Err(ParseErrorModel::UnexpectedToken(toks[j + 1]))
                            } else {
                                Ok(StatementModel { table_name, columns })
                            }
                        },
                    }
                }
            },
            _ => Err(ParseErrorModel::UnexpectedToken(toks[1])),
        }
    }
}

/// The token a column type is written as.
pub open spec fn type_token(t: ColumnType) -> TokenModel {
    match t {
        ColumnType::Int => TokenModel::Int,
        ColumnType::Json => TokenModel::Json,
        ColumnType::Varchar => TokenModel::Varchar,
        ColumnType::Date => TokenModel::Date,
    }
}

/// The canonical token rendering of one column declaration, its mandatory
/// trailing comma included.
pub open spec fn col_tokens(c: ColumnModel) -> Seq<TokenModel> {
    if c.null {
        seq![TokenModel::Text(c.name), type_token(c.column_type), TokenModel::Comma]
    } else {
        seq![
            TokenModel::Text(c.name),
            type_token(c.column_type),
            TokenModel::NotNull,
            TokenModel::Comma,
        ]
    }
}

/// The canonical token rendering of a statement body.
pub open spec fn body_tokens(cols: Seq<ColumnModel>) -> Seq<TokenModel>
    decreases cols.len(),
{
    if cols.len() == 0 {
        Seq::empty()
    } else {
        col_tokens(cols[0]) + body_tokens(cols.drop_first())
    }
}

/// The canonical token rendering of a whole statement.
pub open spec fn stmt_tokens(m: StatementModel) -> Seq<TokenModel> {
    seq![TokenModel::CreateTable, TokenModel::Text(m.table_name), TokenModel::LParen]
        + body_tokens(m.columns) + seq![TokenModel::RParen, TokenModel::Semicolon]
}

proof fn lemma_subrange_index(toks: Seq<TokenModel>, i: int, len: int, k: int, vals: Seq<TokenModel>)
    requires
        0 <= i,
        0 <= k < len,
        i + len <= toks.len(),
        toks.subrange(i, i + len) == vals,
    ensures
        toks[i + k] == vals[k],
{
    assert(toks.subrange(i, i + len)[k] == toks[i + k]);
}

/// The first tokens a column declaration renders into, and its parse.
proof fn lemma_parse_col_head(toks: Seq<TokenModel>, i: int, cols: Seq<ColumnModel>)
    requires
        0 <= i,
        cols.len() >= 1,
        i + body_tokens(cols).len() <= toks.len(),
        toks.subrange(i, i + body_tokens(cols).len()) == body_tokens(cols),
    ensures
        spec_parse_expr2(toks, i) == Ok::<(ColumnModel, int), ParseErrorModel>(
            (cols[0], i + col_tokens(cols[0]).len()),
        ),
        col_tokens(cols[0]).len() <= body_tokens(cols).len(),
        cols.len() > 1 ==> body_tokens(cols.drop_first()).len() >= 1 && toks.subrange(
            i + col_tokens(cols[0]).len(),
            i + body_tokens(cols).len(),
        ) == body_tokens(cols.drop_first()) && (toks[i + col_tokens(cols[0]).len()]
            matches TokenModel::Text(_)),
        cols.len() == 1 ==> body_tokens(cols).len() == col_tokens(cols[0]).len(),
{
    let c = cols[0];
    let cl: int = col_tokens(c).len() as int;
    let bl: int = body_tokens(cols).len() as int;
    let rest = cols.drop_first();
    assert(body_tokens(cols) == col_tokens(c) + body_tokens(rest));
    lemma_subrange_index(toks, i, bl, 0, body_tokens(cols));
    lemma_subrange_index(toks, i, bl, 1, body_tokens(cols));
    lemma_subrange_index(toks, i, bl, 2, body_tokens(cols));
    assert(toks[i] == TokenModel::Text(c.name));
    assert(toks[i + 1] == type_token(c.column_type));
    if c.null {
        assert(toks[i + 2] == TokenModel::Comma);
    } else {
        lemma_subrange_index(toks, i, bl, 3, body_tokens(cols));
        assert(toks[i + 2] == TokenModel::NotNull);
        assert(toks[i + 3] == TokenModel::Comma);
    }
    assert(spec_parse_type(type_token(c.column_type)) == Some(c.column_type));
    assert(spec_parse_expr2(toks, i) == Ok::<(ColumnModel, int), ParseErrorModel>(
        (ColumnModel { name: c.name, column_type: c.column_type, null: c.null }, i + cl),
    ));
    assert(ColumnModel { name: c.name, column_type: c.column_type, null: c.null } == c);
    if cols.len() > 1 {
        let brl: int = body_tokens(rest).len() as int;
        assert(body_tokens(rest) == col_tokens(rest[0]) + body_tokens(rest.drop_first()));
        assert(body_tokens(rest).len() >= 1);
        assert(toks.subrange(i + cl, i + bl) =~= body_tokens(rest)) by {
            assert forall|k: int| 0 <= k < brl implies toks.subrange(i + cl, i + bl)[k]
                == body_tokens(rest)[k] by {
                lemma_subrange_index(toks, i, bl, cl + k, body_tokens(cols));
                assert(toks.subrange(i + cl, i + bl)[k] == toks[i + cl + k]);
                assert(toks[i + (cl + k)] == body_tokens(cols)[cl + k]);
                assert(body_tokens(cols)[cl + k] == body_tokens(rest)[k]);
            }
        }
        lemma_subrange_index(toks, i, bl, cl, body_tokens(cols));
        assert(toks[i + cl] == body_tokens(rest)[0]);
        assert(body_tokens(rest)[0] == col_tokens(rest[0])[0]);
        assert(toks[i + cl] matches TokenModel::Text(_));
    }
}

proof fn lemma_parse_body_at(toks: Seq<TokenModel>, i: int, cols: Seq<ColumnModel>)
    requires
        0 <= i,
        cols.len() >= 1,
        i + body_tokens(cols).len() < toks.len(),
        toks.subrange(i, i + body_tokens(cols).len()) == body_tokens(cols),
        !(toks[i + body_tokens(cols).len()] matches TokenModel::Text(_)),
    ensures
        spec_parse_expr1(toks, i) == Ok::<(Seq<ColumnModel>, int), ParseErrorModel>(
            (cols, i + body_tokens(cols).len()),
        ),
    decreases cols.len(),
{
    let c = cols[0];
    let cl: int = col_tokens(c).len() as int;
    let bl: int = body_tokens(cols).len() as int;
    lemma_parse_col_head(toks, i, cols);
    if cols.len() == 1 {
        assert(seq![c] =~= cols);
    } else {
        let rest = cols.drop_first();
        lemma_parse_body_at(toks, i + cl, rest);
        assert(seq![c] + rest =~= cols);
    }
}

/// Round trip: rendering any statement with at least one column into its
/// canonical token sequence and parsing that sequence back yields exactly
/// the statement, its columns in declaration order.
pub proof fn lemma_parse_round_trip(m: StatementModel)
    requires
        m.columns.len() >= 1,
    ensures
        spec_parse_stmt(stmt_tokens(m)) == Ok::<StatementModel, ParseErrorModel>(m),
{
    let toks = stmt_tokens(m);
    let bl: int = body_tokens(m.columns).len() as int;
    assert(toks.len() == 3 + bl + 2);
    assert(toks[0] == TokenModel::CreateTable);
    assert(toks[1] == TokenModel::Text(m.table_name));
    assert(toks[2] == TokenModel::LParen);
    assert(toks[3 + bl] == TokenModel::RParen);
    assert(toks[3 + bl + 1] == TokenModel::Semicolon);
    assert(toks.subrange(3, 3 + bl) =~= body_tokens(m.columns));
    lemma_parse_body_at(toks, 3, m.columns);
    assert(StatementModel { table_name: m.table_name, columns: m.columns } == m);
}

/// The rendering of one column declaration with its trailing comma left out.
pub open spec fn col_tokens_no_comma(c: ColumnModel) -> Seq<TokenModel> {
    if c.null {
        seq![TokenModel::Text(c.name), type_token(c.column_type)]
    } else {
        seq![TokenModel::Text(c.name), type_token(c.column_type), TokenModel::NotNull]
    }
}

/// The token rendering of a statement whose last column declaration lacks
/// its trailing comma before the closing parenthesis.
pub open spec fn stmt_tokens_missing_last_comma(m: StatementModel) -> Seq<TokenModel> {
    seq![TokenModel::CreateTable, TokenModel::Text(m.table_name), TokenModel::LParen]
        + body_tokens(m.columns.drop_last()) + col_tokens_no_comma(m.columns.last())
        + seq![TokenModel::RParen, TokenModel::Semicolon]
}

proof fn lemma_parse_body_propagates(toks: Seq<TokenModel>, i: int, cols: Seq<ColumnModel>, e: ParseErrorModel)
    requires
        0 <= i,
        i + body_tokens(cols).len() < toks.len(),
        toks.subrange(i, i + body_tokens(cols).len()) == body_tokens(cols),
        toks[i + body_tokens(cols).len()] matches TokenModel::Text(_),
        spec_parse_expr1(toks, i + body_tokens(cols).len()) == Err::<
            (Seq<ColumnModel>, int),
            ParseErrorModel,
        >(e),
    ensures
        spec_parse_expr1(toks, i) == Err::<(Seq<ColumnModel>, int), ParseErrorModel>(e),
    decreases cols.len(),
{
    if cols.len() == 0 {
        assert(toks.subrange(i, i) =~= body_tokens(cols));
    } else {
        let c = cols[0];
        let cl: int = col_tokens(c).len() as int;
        lemma_parse_col_head(toks, i, cols);
        if cols.len() == 1 {
            assert(toks[i + cl] matches TokenModel::Text(_));
            assert(toks.subrange(i + cl, i + cl) =~= body_tokens(cols.drop_first()));
        }
        lemma_parse_body_propagates(toks, i + cl, cols.drop_first(), e);
    }
}

/// Trailing comma requirement: a statement whose last column declaration
/// lacks its trailing comma before `)` fails to parse, with the closing
/// parenthesis as the unexpected token.
pub proof fn lemma_trailing_comma_required(m: StatementModel)
    requires
        m.columns.len() >= 1,
    ensures
        spec_parse_stmt(stmt_tokens_missing_last_comma(m)) == Err::<
            StatementModel,
            ParseErrorModel,
        >(ParseErrorModel::UnexpectedToken(TokenModel::RParen)),
{
    let toks = stmt_tokens_missing_last_comma(m);
    let lead = m.columns.drop_last();
    let c = m.columns.last();
    let bl: int = body_tokens(lead).len() as int;
    let nl: int = col_tokens_no_comma(c).len() as int;
    assert(toks.len() == 3 + bl + nl + 2);
    assert(toks[0] == TokenModel::CreateTable);
    assert(toks[1] == TokenModel::Text(m.table_name));
    assert(toks[2] == TokenModel::LParen);
    let p: int = 3 + bl;
    assert(toks[p] == col_tokens_no_comma(c)[0]);
    assert(toks[p] == TokenModel::Text(c.name));
    assert(toks[p + 1] == type_token(c.column_type));
    assert(toks[p + nl] == TokenModel::RParen);
    assert(spec_parse_type(type_token(c.column_type)) == Some(c.column_type));
    if c.null {
        assert(toks[p + 2] == TokenModel::RParen);
    } else {
        assert(toks[p + 2] == TokenModel::NotNull);
        assert(toks[p + 3] == TokenModel::RParen);
    }
    assert(spec_parse_expr2(toks, p) == Err::<(ColumnModel, int), ParseErrorModel>(
        ParseErrorModel::UnexpectedToken(TokenModel::RParen),
    ));
    assert(spec_parse_expr1(toks, p) == Err::<(Seq<ColumnModel>, int), ParseErrorModel>(
        ParseErrorModel::UnexpectedToken(TokenModel::RParen),
    ));
    assert(toks.subrange(3, 3 + bl) =~= body_tokens(lead));
    lemma_parse_body_propagates(
        toks,
        3,
        lead,
        ParseErrorModel::UnexpectedToken(TokenModel::RParen),
    );
}

/// The column a declaration leaf stands for; meaningful on `Expr2` only.
pub open spec fn expr2_model(ast: Ast) -> ColumnModel {
    match ast {
        Ast::Expr2 { name, column_type, null } => ColumnModel { name: name@, column_type, null },
        _ => ColumnModel { name: Seq::empty(), column_type: ColumnType::Int, null: true },
    }
}

/// A well-formed body chain: `Expr1` nodes whose heads are declaration
/// leaves, linked to the right.
pub open spec fn body_wf(ast: Ast) -> bool
    decreases ast,
{
    match ast {
        Ast::Expr1 { expr2, expr1 } => (*expr2 is Expr2) && match expr1 {
            Some(rest) => body_wf(*rest),
            None => true,
        },
        _ => false,
    }
}

/// The columns of a body chain, in declaration order.
pub open spec fn body_cols(ast: Ast) -> Seq<ColumnModel>
    decreases ast,
{
    match ast {
        Ast::Expr1 { expr2, expr1 } => seq![expr2_model(*expr2)] + (match expr1 {
            Some(rest) => body_cols(*rest),
            None => Seq::empty(),
        }),
        _ => Seq::empty(),
    }
}

/// A well-formed statement tree: a root owning a well-formed body chain.
pub open spec fn stmt_wf(ast: Ast) -> bool {
    match ast {
        Ast::Expr { table_name, expr1 } => body_wf(*expr1),
        _ => false,
    }
}

/// The statement a well-formed tree stands for.
pub open spec fn stmt_model(ast: Ast) -> StatementModel {
    match ast {
        Ast::Expr { table_name, expr1 } => StatementModel {
            table_name: table_name@,
            columns: body_cols(*expr1),
        },
        _ => StatementModel { table_name: Seq::empty(), columns: Seq::empty() },
    }
}

/// The token at `pos`, consumed by cloning; `None` past the end.
fn take_token(tokens: &Vec<LexicalToken>, pos: usize) -> (r: Option<LexicalToken>)
    ensures
        pos < tokens@.len() ==> r == Some(tokens@[pos as int]),
        pos >= tokens@.len() ==> r == None::<LexicalToken>,
{
    if pos < tokens.len() {
        Some(tokens[pos].clone())
    } else {
        None
    }
}

/// The parser. It holds no state: the cursor walks the token sequence once,
/// monotonically, and never un-reads a token.
pub struct Parser {}

impl Parser {
    pub fn new() -> (r: Self) {
        Parser {}
    }

    /// Consumes one token that must equal `target`.
    fn parse_token(&self, tokens: &Vec<LexicalToken>, pos: usize, target: &LexicalToken) -> (r:
        Result<usize, ParseError>)
        ensures
            match r {
                Ok(j) => {
                    &&& pos < tokens@.len()
                    &&& tokens_view(tokens@)[pos as int] == target@
                    &&& j == pos + 1
                },
                Err(e) => {
                    &&& pos < tokens@.len() ==> {
                        &&& e@ == ParseErrorModel::UnexpectedToken(tokens_view(tokens@)[pos as int])
                        &&& tokens_view(tokens@)[pos as int] != target@
                    }
                    &&& pos >= tokens@.len() ==> e@ == ParseErrorModel::Eof
                },
            },
    {
        let n: usize = tokens.len();
        if pos < n {
            let token = tokens[pos].clone();
            if token == *target {
                Ok(pos + 1)
            } else {
                Err(ParseError::UnexpectedToken(token))
            }
        } else {
            Err(ParseError::Eof)
        }
    }

    /// Consumes one token that must be an identifier; hands its text out.
    fn parse_text(&self, token: Option<LexicalToken>) -> (r: Result<String, ParseError>)
        ensures
            match token {
                Some(LexicalToken::Text(s)) => r == Ok::<String, ParseError>(s),
                Some(t) => r matches Err(e) && e@ == ParseErrorModel::UnexpectedToken(t@),
                None => r matches Err(e) && e@ == ParseErrorModel::Eof,
            },
    {
        match token {
            Some(LexicalToken::Text(text)) => Ok(text),
            Some(t) => Err(ParseError::UnexpectedToken(t)),
            None => Err(ParseError::Eof),
        }
    }

    /// Consumes one token that must name a column type.
    fn parse_column_type(&self, token: Option<LexicalToken>) -> (r: Result<ColumnType, ParseError>)
        ensures
            match token {
                Some(t) => match spec_parse_type(t@) {
                    Some(ct) => r == Ok::<ColumnType, ParseError>(ct),
                    None => r matches Err(e) && e@ == ParseErrorModel::UnexpectedToken(t@),
                },
                None => r matches Err(e) && e@ == ParseErrorModel::Eof,
            },
    {
        match token {
            Some(LexicalToken::Int) => Ok(ColumnType::Int),
            Some(LexicalToken::Json) => Ok(ColumnType::Json),
            Some(LexicalToken::Varchar) => Ok(ColumnType::Varchar),
            Some(LexicalToken::Date) => Ok(ColumnType::Date),
            Some(t) => Err(ParseError::UnexpectedToken(t)),
            None => Err(ParseError::Eof),
        }
    }

    /// Parses one column declaration starting at `pos`; returns its leaf and
    /// the index just past the mandatory comma.
    fn parse_expr2(&self, tokens: &Vec<LexicalToken>, pos: usize) -> (r: Result<
        (Ast, usize),
        ParseError,
    >)
        ensures
            match r {
                Ok((ast, j)) => {
                    &&& ast is Expr2
                    &&& pos < j <= tokens@.len()
                    &&& spec_parse_expr2(tokens_view(tokens@), pos as int) == Ok::<
                        (ColumnModel, int),
                        ParseErrorModel,
                    >((expr2_model(ast), j as int))
                },
                Err(e) => spec_parse_expr2(tokens_view(tokens@), pos as int) == Err::<
                    (ColumnModel, int),
                    ParseErrorModel,
                >(e@),
            },
    {
        let n: usize = tokens.len();
        let name: String = match self.parse_text(take_token(tokens, pos)) {
            Ok(s) => s,
            Err(e) => {
                return Err(e);
            },
        };
        let column_type: ColumnType = match self.parse_column_type(take_token(tokens, pos + 1)) {
            Ok(t) => t,
            Err(e) => {
                return Err(e);
            },
        };
        let has_not_null: bool = if pos + 2 < n {
            match &tokens[pos + 2] {
                LexicalToken::NotNull => true,
                _ => false,
            }
        } else {
            false
        };
        let j: usize = if has_not_null {
            pos + 3
        } else {
            pos + 2
        };
        match take_token(tokens, j) {
            None => Err(ParseError::Eof),
            Some(LexicalToken::Comma) => Ok(
                (Ast::Expr2 { name, column_type, null: !has_not_null }, j + 1),
            ),
            Some(t) => Err(ParseError::UnexpectedToken(t)),
        }
    }

    /// Parses the body starting at `pos`: one declaration, then more while
    /// the lookahead token is an identifier. Returns the right-leaning chain
    /// and the index of the first unconsumed token.
    fn parse_expr1(&self, tokens: &Vec<LexicalToken>, pos: usize) -> (r: Result<
        (Ast, usize),
        ParseError,
    >)
        ensures
            match r {
                Ok((ast, j)) => {
                    &&& body_wf(ast)
                    &&& pos < j <= tokens@.len()
                    &&& spec_parse_expr1(tokens_view(tokens@), pos as int) == Ok::<
                        (Seq<ColumnModel>, int),
                        ParseErrorModel,
                    >((body_cols(ast), j as int))
                },
                Err(e) => spec_parse_expr1(tokens_view(tokens@), pos as int) == Err::<
                    (Seq<ColumnModel>, int),
                    ParseErrorModel,
                >(e@),
            },
        decreases tokens@.len() - pos,
    {
        let (expr2_ast, j) = match self.parse_expr2(tokens, pos) {
            Ok(v) => v,
            Err(e) => {
                return Err(e);
            },
        };
        let more: bool = if j < tokens.len() {
            match &tokens[j] {
                LexicalToken::Text(_) => true,
                _ => false,
            }
        } else {
            false
        };
        if more {
            let (rest_ast, k) = match self.parse_expr1(tokens, j) {
                Ok(v) => v,
                Err(e) => {
                    return Err(e);
                },
            };
            Ok((Ast::Expr1 { expr2: Box::new(expr2_ast), expr1: Some(Box::new(rest_ast)) }, k))
        } else {
            Ok((Ast::Expr1 { expr2: Box::new(expr2_ast), expr1: None }, j))
        }
    }

    /// Parses a whole statement from the front of the token sequence.
    fn parse_expr(&self, tokens: &Vec<LexicalToken>) -> (r: Result<Ast, ParseError>)
        ensures
            match r {
                Ok(ast) => {
                    &&& stmt_wf(ast)
                    &&& spec_parse_stmt(tokens_view(tokens@)) == Ok::<
                        StatementModel,
                        ParseErrorModel,
                    >(stmt_model(ast))
                },
                Err(e) => spec_parse_stmt(tokens_view(tokens@)) == Err::<
                    StatementModel,
                    ParseErrorModel,
                >(e@),
            },
    {
        match self.parse_token(tokens, 0, &LexicalToken::CreateTable) {
            Ok(_) => {},
            Err(e) => {
                return Err(e);
            },
        }
        let table_name: String = match self.parse_text(take_token(tokens, 1)) {
            Ok(s) => s,
            Err(e) => {
                return Err(e);
            },
        };
        match self.parse_token(tokens, 2, &LexicalToken::LParen) {
            Ok(_) => {},
            Err(e) => {
                return Err(e);
            },
        }
        let (body_ast, j) = match self.parse_expr1(tokens, 3) {
            Ok(v) => v,
            Err(e) => {
                return Err(e);
            },
        };
        let j2: usize = match self.parse_token(tokens, j, &LexicalToken::RParen) {
            Ok(k) => k,
            Err(e) => {
                return Err(e);
            },
        };
        match self.parse_token(tokens, j2, &LexicalToken::Semicolon) {
            Ok(_) => {},
            Err(e) => {
                return Err(e);
            },
        }
        Ok(Ast::Expr { table_name, expr1: Box::new(body_ast) })
    }

    /// Parses the token sequence into a single statement tree, or fails with
    /// the first syntax error, exactly as [`spec_parse_stmt`] says.
    pub fn run(&self, tokens: Vec<LexicalToken>) -> (r: Result<Ast, ParseError>)
        ensures
            match r {
                Ok(ast) => {
                    &&& stmt_wf(ast)
                    &&& spec_parse_stmt(tokens_view(tokens@)) == Ok::<
                        StatementModel,
                        ParseErrorModel,
                    >(stmt_model(ast))
                },
                Err(e) => spec_parse_stmt(tokens_view(tokens@)) == Err::<
                    StatementModel,
                    ParseErrorModel,
                >(e@),
            },
    {
        self.parse_expr(&tokens)
    }
}

} // verus!
