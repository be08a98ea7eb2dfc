//! Tokenizer: scans the raw statement text left to right and produces the
//! sequence of lexical tokens, or reports the first byte it cannot read.
//!
//! At each position an ordered list of matchers is tried and the first success
//! wins: the case-insensitive keyword phrases, then the single-byte symbols,
//! then a maximal run of identifier bytes. The whole scan is specified by
//! [`spec_tokenize`] over the UTF-8 bytes of the input.

use vstd::prelude::*;
use vstd::string::StrSliceExecFns;
use vstd::string::StringSliceAdditionalSpecFns;

verus! {

/// One lexical unit of a `CREATE TABLE` statement.
#[derive(Debug)]
pub enum LexicalToken {
    CreateTable,
    Int,
    Varchar,
    Json,
    Date,
    NotNull,
    LParen,
    RParen,
    Comma,
    Semicolon,
    Text(String),
}

/// Mathematical model of a token: identifier text is a sequence of characters.
pub enum TokenModel {
    CreateTable,
    Int,
    Varchar,
    Json,
    Date,
    NotNull,
    LParen,
    RParen,
    Comma,
    Semicolon,
    Text(Seq<char>),
}

impl PartialEq for LexicalToken {
    fn eq(&self, other: &Self) -> bool {
        match (self, other) {
            (LexicalToken::CreateTable, LexicalToken::CreateTable) => true,
            (LexicalToken::Int, LexicalToken::Int) => true,
            (LexicalToken::Varchar, LexicalToken::Varchar) => true,
            (LexicalToken::Json, LexicalToken::Json) => true,
            (LexicalToken::Date, LexicalToken::Date) => true,
            (LexicalToken::NotNull, LexicalToken::NotNull) => true,
            (LexicalToken::LParen, LexicalToken::LParen) => true,
            (LexicalToken::RParen, LexicalToken::RParen) => true,
            (LexicalToken::Comma, LexicalToken::Comma) => true,
            (LexicalToken::Semicolon, LexicalToken::Semicolon) => true,
            (LexicalToken::Text(a), LexicalToken::Text(b)) => *a == *b,
            _ => false,
        }
    }
}

impl vstd::std_specs::cmp::PartialEqSpecImpl for LexicalToken {
    open spec fn obeys_eq_spec() -> bool {
        true
    }

    open spec fn eq_spec(&self, other: &Self) -> bool {
        self@ == other@
    }
}

impl Clone for LexicalToken {
    fn clone(&self) -> (r: Self)
        ensures
            r == *self,
    {
        match self {
            LexicalToken::CreateTable => LexicalToken::CreateTable,
            LexicalToken::Int => LexicalToken::Int,
            LexicalToken::Varchar => LexicalToken::Varchar,
            LexicalToken::Json => LexicalToken::Json,
            LexicalToken::Date => LexicalToken::Date,
            LexicalToken::NotNull => LexicalToken::NotNull,
            LexicalToken::LParen => LexicalToken::LParen,
            LexicalToken::RParen => LexicalToken::RParen,
            LexicalToken::Comma => LexicalToken::Comma,
            LexicalToken::Semicolon => LexicalToken::Semicolon,
            LexicalToken::Text(s) => LexicalToken::Text(s.clone()),
        }
    }
}

impl View for LexicalToken {
    type V = TokenModel;

    open spec fn view(&self) -> TokenModel {
        match self {
            LexicalToken::CreateTable => TokenModel::CreateTable,
            LexicalToken::Int => TokenModel::Int,
            LexicalToken::Varchar => TokenModel::Varchar,
            LexicalToken::Json => TokenModel::Json,
            LexicalToken::Date => TokenModel::Date,
            LexicalToken::NotNull => TokenModel::NotNull,
            LexicalToken::LParen => TokenModel::LParen,
            LexicalToken::RParen => TokenModel::RParen,
            LexicalToken::Comma => TokenModel::Comma,
            LexicalToken::Semicolon => TokenModel::Semicolon,
            LexicalToken::Text(s) => TokenModel::Text(s@),
        }
    }
}

/// The model of a token sequence.
pub open spec fn tokens_view(v: Seq<LexicalToken>) -> Seq<TokenModel> {
    v.map_values(|t: LexicalToken| t@)
}

/// Tokenization failure: the position of the first byte no matcher accepts,
/// and that byte itself.
#[derive(Debug, Clone, PartialEq, Eq, Structural)]
pub enum LexError {
    Invalid(usize, u8),
}

/// A successful match at one position: the token it produced, the position it
/// started at, and the position just past the matched bytes.
pub struct MatchResult {
    pub token: LexicalToken,
    pub start: usize,
    pub end: usize,
}

/// Whitespace skipped between tokens: space, newline, tab.
pub open spec fn is_space_byte(b: u8) -> bool {
    b == 32 || b == 10 || b == 9
}

/// ASCII lowercasing of one byte; keyword matching is case-insensitive.
pub open spec fn lower_byte(b: u8) -> u8 {
    if 65 <= b && b <= 90 {
        (b + 32) as u8
    } else {
        b
    }
}

/// A byte that may stand in an identifier: ASCII alphanumeric or underscore.
/// The comma is excluded explicitly, guarding the token boundary even though
/// it is not alphanumeric.
pub open spec fn is_ident_byte(b: u8) -> bool {
    &&& b != 44
    &&& {
        ||| 48 <= b && b <= 57
        ||| 65 <= b && b <= 90
        ||| 97 <= b && b <= 122
        ||| b == 95
    }
}

pub open spec fn kw_create_table() -> Seq<u8> {
    seq![99u8, 114, 101, 97, 116, 101, 32, 116, 97, 98, 108, 101]
}

pub open spec fn kw_integer() -> Seq<u8> {
    seq![105u8, 110, 116, 101, 103, 101, 114]
}

pub open spec fn kw_int() -> Seq<u8> {
    seq![105u8, 110, 116]
}

pub open spec fn kw_json() -> Seq<u8> {
    seq![106u8, 115, 111, 110]
}

pub open spec fn kw_varchar() -> Seq<u8> {
    seq![118u8, 97, 114, 99, 104, 97, 114]
}

pub open spec fn kw_date() -> Seq<u8> {
    seq![100u8, 97, 116, 101]
}

pub open spec fn kw_not_null() -> Seq<u8> {
    seq![110u8, 111, 116, 32, 110, 117, 108, 108]
}

/// The keyword phrase `kw` (given in lowercase) matches at `pos` when the
/// input holds it there up to ASCII case.
pub open spec fn ci_matches_at(input: Seq<u8>, pos: int, kw: Seq<u8>) -> bool {
    &&& pos + kw.len() <= input.len()
    &&& forall|i: int| 0 <= i < kw.len() ==> lower_byte(input[pos + i]) == kw[i]
}

/// Ordered keyword dispatch at `pos`: the first phrase that matches wins, and
/// the longer `integer` is tried before its prefix `int`. Returns the token
/// and the length of the matched phrase.
pub open spec fn keyword_token_at(input: Seq<u8>, pos: int) -> Option<(TokenModel, int)> {
    if ci_matches_at(input, pos, kw_create_table()) {
        Some((TokenModel::CreateTable, kw_create_table().len() as int))
    } else if ci_matches_at(input, pos, kw_integer()) {
        Some((TokenModel::Int, kw_integer().len() as int))
    } else if ci_matches_at(input, pos, kw_int()) {
        Some((TokenModel::Int, kw_int().len() as int))
    } else if ci_matches_at(input, pos, kw_json()) {
        Some((TokenModel::Json, kw_json().len() as int))
    } else if ci_matches_at(input, pos, kw_varchar()) {
        Some((TokenModel::Varchar, kw_varchar().len() as int))
    } else if ci_matches_at(input, pos, kw_date()) {
        Some((TokenModel::Date, kw_date().len() as int))
    } else if ci_matches_at(input, pos, kw_not_null()) {
        Some((TokenModel::NotNull, kw_not_null().len() as int))
    } else {
        None
    }
}

/// End of the maximal identifier run that starts at `pos`.
pub open spec fn ident_end(input: Seq<u8>, pos: int) -> int
    decreases input.len() - pos when 0 <= pos <= input.len()
{
    if pos < input.len() && is_ident_byte(input[pos]) {
        ident_end(input, pos + 1)
    } else {
        pos
    }
}

pub proof fn lemma_ident_end(input: Seq<u8>, pos: int)
    requires
        0 <= pos <= input.len(),
    ensures
        pos <= ident_end(input, pos) <= input.len(),
        forall|i: int| pos <= i < ident_end(input, pos) ==> is_ident_byte(#[trigger] input[i]),
        ident_end(input, pos) < input.len() ==> !is_ident_byte(input[ident_end(input, pos)]),
        pos < input.len() && is_ident_byte(input[pos]) ==> pos < ident_end(input, pos),
    decreases input.len() - pos,
{
    if pos < input.len() && is_ident_byte(input[pos]) {
        lemma_ident_end(input, pos + 1);
    }
}

/// The identifier matcher never consumes a comma: every byte inside an
/// identifier run is an identifier byte, and the comma is none, so `name,`
/// can only scan as the run `name` with the comma left unread.
pub proof fn lemma_identifier_never_consumes_comma(input: Seq<u8>, pos: int, i: int)
    requires
        0 <= pos <= input.len(),
        pos <= i < ident_end(input, pos),
    ensures
        input[i] != 44,
{
    lemma_ident_end(input, pos);
}

/// The characters of the identifier run that starts at `pos`: its bytes are
/// ASCII, so each byte is one character.
pub open spec fn ident_chars(input: Seq<u8>, pos: int) -> Seq<char> {
    Seq::new((ident_end(input, pos) - pos) as nat, |i: int| input[pos + i] as char)
}

/// One matcher-dispatch step at a non-space, non-comma position: the token
/// produced there and the position just past it, or `None` when no matcher
/// accepts the byte.
pub open spec fn step_at(input: Seq<u8>, pos: int) -> Option<(TokenModel, int)> {
    match keyword_token_at(input, pos) {
        Some((t, len)) => Some((t, pos + len)),
        None => {
            if input[pos] == 40 {
                Some((TokenModel::LParen, pos + 1))
            } else if input[pos] == 41 {
                Some((TokenModel::RParen, pos + 1))
            } else if input[pos] == 59 {
                Some((TokenModel::Semicolon, pos + 1))
            } else if is_ident_byte(input[pos]) {
                Some((TokenModel::Text(ident_chars(input, pos)), ident_end(input, pos)))
            } else {
                None
            }
        },
    }
}

pub proof fn lemma_keyword_bounds(input: Seq<u8>, pos: int)
    requires
        0 <= pos,
    ensures
        match keyword_token_at(input, pos) {
            Some((t, len)) => 1 <= len && pos + len <= input.len(),
            None => true,
        },
{
}

pub proof fn lemma_step_at_bounds(input: Seq<u8>, pos: int)
    requires
        0 <= pos < input.len(),
    ensures
        match step_at(input, pos) {
            Some((t, end)) => pos < end <= input.len(),
            None => true,
        },
{
    lemma_ident_end(input, pos);
}

/// Prepends a token to the outcome of lexing the rest of the input; an error
/// in the rest discards everything, as the whole tokenization call fails
/// atomically.
pub open spec fn lex_cons(
    t: TokenModel,
    rest: Result<Seq<TokenModel>, LexError>,
) -> Result<Seq<TokenModel>, LexError> {
    match rest {
        Ok(s) => Ok(seq![t] + s),
        Err(e) => Err(e),
    }
}

/// The tokens of the input from `pos` on: whitespace is skipped, a comma is a
/// token of its own, anything else goes through the matcher dispatch, and a
/// byte no matcher accepts fails the whole scan with its position.
pub open spec fn lex_rest(input: Seq<u8>, pos: int) -> Result<Seq<TokenModel>, LexError>
    decreases input.len() - pos when 0 <= pos <= input.len()
{
    if pos >= input.len() {
        Ok(Seq::empty())
    } else if is_space_byte(input[pos]) {
        lex_rest(input, pos + 1)
    } else if input[pos] == 44 {
        lex_cons(TokenModel::Comma, lex_rest(input, pos + 1))
    } else {
        proof {
            lemma_step_at_bounds(input, pos);
        }
        match step_at(input, pos) {
            Some((t, end)) => lex_cons(t, lex_rest(input, end)),
            None => Err(LexError::Invalid(pos as usize, input[pos])),
        }
    }
}

/// What tokenizing an input means: the token sequence of its bytes, or the
/// first lexical error.
pub open spec fn spec_tokenize(input: Seq<u8>) -> Result<Seq<TokenModel>, LexError> {
    lex_rest(input, 0)
}

/// ASCII lowercasing of one character.
pub open spec fn lower_char(c: char) -> char {
    if 65 <= c as int && c as int <= 90 {
        ((c as u8) + 32) as char
    } else {
        c
    }
}

/// A byte sequence after ASCII lowercasing.
pub open spec fn lower_bytes(s: Seq<u8>) -> Seq<u8> {
    s.map_values(|b: u8| lower_byte(b))
}

/// A character sequence after ASCII lowercasing.
pub open spec fn lower_chars(s: Seq<char>) -> Seq<char> {
    s.map_values(|c: char| lower_char(c))
}

/// A token after lowercasing its identifier text; keyword and symbol tokens
/// carry none.
pub open spec fn lower_token(t: TokenModel) -> TokenModel {
    match t {
        TokenModel::Text(s) => TokenModel::Text(lower_chars(s)),
        _ => t,
    }
}

/// A tokenization outcome after lowercasing: identifier text in the tokens,
/// the reported byte in an error.
pub open spec fn lower_outcome(r: Result<Seq<TokenModel>, LexError>) -> Result<
    Seq<TokenModel>,
    LexError,
> {
    match r {
        Ok(toks) => Ok(toks.map_values(|t: TokenModel| lower_token(t))),
        Err(LexError::Invalid(p, b)) => Err(LexError::Invalid(p, lower_byte(b))),
    }
}

proof fn lemma_lower_byte_char(b: u8)
    ensures
        lower_byte(b) as char == lower_char(b as char),
{
}

proof fn lemma_ci_case(input: Seq<u8>, pos: int, kw: Seq<u8>)
    requires
        0 <= pos,
    ensures
        ci_matches_at(lower_bytes(input), pos, kw) == ci_matches_at(input, pos, kw),
{
    let low = lower_bytes(input);
    if ci_matches_at(input, pos, kw) {
        assert forall|i: int| 0 <= i < kw.len() implies lower_byte(low[pos + i]) == kw[i] by {
            assert(low[pos + i] == lower_byte(input[pos + i]));
        }
    }
    if ci_matches_at(low, pos, kw) {
        assert forall|i: int| 0 <= i < kw.len() implies lower_byte(input[pos + i]) == kw[i] by {
            assert(lower_byte(low[pos + i]) == kw[i]);
            assert(low[pos + i] == lower_byte(input[pos + i]));
        }
    }
}

proof fn lemma_keyword_case(input: Seq<u8>, pos: int)
    requires
        0 <= pos,
    ensures
        keyword_token_at(lower_bytes(input), pos) == keyword_token_at(input, pos),
{
    lemma_ci_case(input, pos, kw_create_table());
    lemma_ci_case(input, pos, kw_integer());
    lemma_ci_case(input, pos, kw_int());
    lemma_ci_case(input, pos, kw_json());
    lemma_ci_case(input, pos, kw_varchar());
    lemma_ci_case(input, pos, kw_date());
    lemma_ci_case(input, pos, kw_not_null());
}

proof fn lemma_ident_end_case(input: Seq<u8>, pos: int)
    requires
        0 <= pos <= input.len(),
    ensures
        ident_end(lower_bytes(input), pos) == ident_end(input, pos),
    decreases input.len() - pos,
{
    if pos < input.len() {
        assert(lower_bytes(input)[pos] == lower_byte(input[pos]));
        assert(is_ident_byte(lower_byte(input[pos])) == is_ident_byte(input[pos]));
        if is_ident_byte(input[pos]) {
            lemma_ident_end_case(input, pos + 1);
        }
    }
}

proof fn lemma_step_case(input: Seq<u8>, pos: int)
    requires
        0 <= pos < input.len(),
    ensures
        step_at(lower_bytes(input), pos) == (match step_at(input, pos) {
            Some((t, end)) => Some((lower_token(t), end)),
            None => None::<(TokenModel, int)>,
        }),
{
    let low = lower_bytes(input);
    lemma_keyword_case(input, pos);
    assert(low[pos] == lower_byte(input[pos]));
    if keyword_token_at(input, pos) is None {
        lemma_ident_end_case(input, pos);
        if is_ident_byte(input[pos]) {
            lemma_ident_end(input, pos);
            assert(ident_chars(low, pos) =~= lower_chars(ident_chars(input, pos))) by {
                let end = ident_end(input, pos);
                assert forall|k: int| 0 <= k < end - pos implies ident_chars(low, pos)[k]
                    == lower_chars(ident_chars(input, pos))[k] by {
                    assert(low[pos + k] == lower_byte(input[pos + k]));
                    lemma_lower_byte_char(input[pos + k]);
                    assert(ident_chars(input, pos)[k] == input[pos + k] as char);
                    assert(lower_chars(ident_chars(input, pos))[k] == lower_char(
                        input[pos + k] as char,
                    ));
                }
            }
        }
    }
}

proof fn lemma_lower_cons(t: TokenModel, rest: Result<Seq<TokenModel>, LexError>)
    ensures
        lower_outcome(lex_cons(t, rest)) == lex_cons(lower_token(t), lower_outcome(rest)),
{
    match rest {
        Ok(s) => {
            assert((seq![t] + s).map_values(|x: TokenModel| lower_token(x)) =~= seq![
                lower_token(t),
            ] + s.map_values(|x: TokenModel| lower_token(x)));
        },
        Err(_) => {},
    }
}

proof fn lemma_lex_rest_case(input: Seq<u8>, pos: int)
    requires
        0 <= pos <= input.len(),
    ensures
        lex_rest(lower_bytes(input), pos) == lower_outcome(lex_rest(input, pos)),
    decreases input.len() - pos,
{
    let low = lower_bytes(input);
    if pos >= input.len() {
        assert(Seq::<TokenModel>::empty().map_values(|t: TokenModel| lower_token(t))
            =~= Seq::<TokenModel>::empty());
    } else {
        assert(low[pos] == lower_byte(input[pos]));
        if is_space_byte(input[pos]) {
            lemma_lex_rest_case(input, pos + 1);
        } else if input[pos] == 44 {
            lemma_lex_rest_case(input, pos + 1);
            lemma_lower_cons(TokenModel::Comma, lex_rest(input, pos + 1));
        } else {
            lemma_step_case(input, pos);
            lemma_step_at_bounds(input, pos);
            match step_at(input, pos) {
                Some((t, end)) => {
                    lemma_lex_rest_case(input, end);
                    lemma_lower_cons(t, lex_rest(input, end));
                },
                None => {},
            }
        }
    }
}

/// Case insensitivity: tokenizing the ASCII-lowercased input gives the same
/// outcome as tokenizing the input itself, up to lowercasing identifier text
/// and an error's reported byte. In particular `create table`,
/// `CREATE TABLE` and `Create Table` all tokenize to the same token, and
/// likewise every type keyword and `NOT NULL`.
pub proof fn lemma_tokenize_case_insensitive(input: Seq<u8>)
    ensures
        spec_tokenize(lower_bytes(input)) == lower_outcome(spec_tokenize(input)),
{
    lemma_lex_rest_case(input, 0);
}

/// Prepends an already-scanned token prefix to the outcome of lexing the
/// rest; an error in the rest is the outcome of the whole scan.
pub open spec fn lex_with_prefix(
    prefix: Seq<TokenModel>,
    rest: Result<Seq<TokenModel>, LexError>,
) -> Result<Seq<TokenModel>, LexError> {
    match rest {
        Ok(s) => Ok(prefix + s),
        Err(e) => Err(e),
    }
}

proof fn lemma_with_prefix_push(
    prefix: Seq<TokenModel>,
    t: TokenModel,
    rest: Result<Seq<TokenModel>, LexError>,
)
    ensures
        lex_with_prefix(prefix.push(t), rest) == lex_with_prefix(prefix, lex_cons(t, rest)),
{
    match rest {
        Ok(s) => {
            assert(prefix.push(t) + s =~= prefix + (seq![t] + s));
        },
        Err(_) => {},
    }
}

proof fn lemma_lex_rest_spaces(input: Seq<u8>, pos: int, end: int)
    requires
        0 <= pos <= end <= input.len(),
        forall|i: int| pos <= i < end ==> is_space_byte(#[trigger] input[i]),
    ensures
        lex_rest(input, pos) == lex_rest(input, end),
    decreases end - pos,
{
    if pos < end {
        lemma_lex_rest_spaces(input, pos + 1, end);
    }
}

/// Relies on std's `String::push`: it appends exactly the given character to
/// the end of the string.
pub assume_specification[ String::push ](s: &mut String, c: char)
    ensures
        final(s)@ == old(s)@.push(c),
;

/// ASCII lowercasing of one byte.
fn to_lower(b: u8) -> (r: u8)
    ensures
        r == lower_byte(b),
{
    if 65 <= b && b <= 90 {
        b + 32
    } else {
        b
    }
}

/// Whether one byte may stand in an identifier.
fn ident_byte(b: u8) -> (r: bool)
    ensures
        r == is_ident_byte(b),
{
    b != 44 && ((48 <= b && b <= 57) || (65 <= b && b <= 90) || (97 <= b && b <= 122) || b == 95)
}

/// Case-insensitive comparison of the input at `pos` against a lowercase
/// keyword phrase.
fn ci_match_at(input: &Vec<u8>, pos: usize, kw: &Vec<u8>) -> (r: bool)
    requires
        pos <= input@.len(),
    ensures
        r == ci_matches_at(input@, pos as int, kw@),
{
    if kw.len() > input.len() - pos {
        return false;
    }
    let mut i: usize = 0;
    while i < kw.len()
        invariant
            0 <= i <= kw@.len(),
            pos + kw@.len() <= input@.len() <= usize::MAX,
            forall|j: int| 0 <= j < i ==> lower_byte(#[trigger] input@[pos + j]) == kw@[j],
        decreases kw@.len() - i,
    {
        if to_lower(input[pos + i]) != kw[i] {
            return false;
        }
        i = i + 1;
    }
    true
}

fn kw_create_table_vec() -> (r: Vec<u8>)
    ensures
        r@ == kw_create_table(),
{
    let r: Vec<u8> = vec![99u8, 114, 101, 97, 116, 101, 32, 116, 97, 98, 108, 101];
    proof {
        assert(r@ =~= kw_create_table());
    }
    r
}

fn kw_integer_vec() -> (r: Vec<u8>)
    ensures
        r@ == kw_integer(),
{
    let r: Vec<u8> = vec![105u8, 110, 116, 101, 103, 101, 114];
    proof {
        assert(r@ =~= kw_integer());
    }
    r
}

fn kw_int_vec() -> (r: Vec<u8>)
    ensures
        r@ == kw_int(),
{
    let r: Vec<u8> = vec![105u8, 110, 116];
    proof {
        assert(r@ =~= kw_int());
    }
    r
}

fn kw_json_vec() -> (r: Vec<u8>)
    ensures
        r@ == kw_json(),
{
    let r: Vec<u8> = vec![106u8, 115, 111, 110];
    proof {
        assert(r@ =~= kw_json());
    }
    r
}

fn kw_varchar_vec() -> (r: Vec<u8>)
    ensures
        r@ == kw_varchar(),
{
    let r: Vec<u8> = vec![118u8, 97, 114, 99, 104, 97, 114];
    proof {
        assert(r@ =~= kw_varchar());
    }
    r
}

fn kw_date_vec() -> (r: Vec<u8>)
    ensures
        r@ == kw_date(),
{
    let r: Vec<u8> = vec![100u8, 97, 116, 101];
    proof {
        assert(r@ =~= kw_date());
    }
    r
}

fn kw_not_null_vec() -> (r: Vec<u8>)
    ensures
        r@ == kw_not_null(),
{
    let r: Vec<u8> = vec![110u8, 111, 116, 32, 110, 117, 108, 108];
    proof {
        assert(r@ =~= kw_not_null());
    }
    r
}

/// Ordered keyword dispatch: the token of the first phrase matching at `pos`,
/// with the length of the matched phrase.
fn keyword_match(input: &Vec<u8>, pos: usize) -> (r: Option<(LexicalToken, usize)>)
    requires
        pos <= input@.len(),
    ensures
        match r {
            Some((t, len)) => keyword_token_at(input@, pos as int) == Some((t@, len as int)),
            None => keyword_token_at(input@, pos as int) == None::<(TokenModel, int)>,
        },
{
    if ci_match_at(input, pos, &kw_create_table_vec()) {
        Some((LexicalToken::CreateTable, 12))
    } else if ci_match_at(input, pos, &kw_integer_vec()) {
        Some((LexicalToken::Int, 7))
    } else if ci_match_at(input, pos, &kw_int_vec()) {
        Some((LexicalToken::Int, 3))
    } else if ci_match_at(input, pos, &kw_json_vec()) {
        Some((LexicalToken::Json, 4))
    } else if ci_match_at(input, pos, &kw_varchar_vec()) {
        Some((LexicalToken::Varchar, 7))
    } else if ci_match_at(input, pos, &kw_date_vec()) {
        Some((LexicalToken::Date, 4))
    } else if ci_match_at(input, pos, &kw_not_null_vec()) {
        Some((LexicalToken::NotNull, 8))
    } else {
        None
    }
}

/// Scans to the end of the maximal identifier run that starts at `pos`.
fn ident_scan(input: &Vec<u8>, pos: usize) -> (r: usize)
    requires
        pos <= input@.len(),
    ensures
        r == ident_end(input@, pos as int),
        pos <= r <= input@.len(),
{
    let mut i: usize = pos;
    while i < input.len() && ident_byte(input[i])
        invariant
            pos <= i <= input@.len(),
            ident_end(input@, pos as int) == ident_end(input@, i as int),
        decreases input@.len() - i,
    {
        i = i + 1;
    }
    proof {
        lemma_ident_end(input@, pos as int);
    }
    i
}

/// Builds the identifier string of a byte range; each byte is one character.
fn ident_string(input: &Vec<u8>, start: usize, end: usize) -> (r: String)
    requires
        start <= end <= input@.len(),
    ensures
        r@ == Seq::new((end - start) as nat, |i: int| input@[start + i] as char),
{
    let mut s: String = String::new();
    let mut i: usize = start;
    proof {
        assert(s@ =~= Seq::new((i - start) as nat, |j: int| input@[start + j] as char));
    }
    while i < end
        invariant
            start <= i <= end <= input@.len(),
            s@ == Seq::new((i - start) as nat, |j: int| input@[start + j] as char),
        decreases end - i,
    {
        let b: u8 = input[i];
        s.push(b as char);
        i = i + 1;
        proof {
            assert(s@ =~= Seq::new((i - start) as nat, |j: int| input@[start + j] as char));
        }
    }
    s
}

/// The tokenizer. It holds no state: the matcher order is fixed by the
/// grammar, keywords first, then symbols, then the identifier run.
pub struct Lexer {}

impl Lexer {
    pub fn new() -> (r: Self) {
        Lexer {}
    }

    /// Matcher dispatch at one position that holds neither whitespace nor a
    /// comma: the first matcher to accept produces the token, and a byte no
    /// matcher accepts is the lexical error.
    fn check(&self, input: &Vec<u8>, position: usize) -> (r: Result<MatchResult, LexError>)
        requires
            position < input@.len(),
        ensures
            match r {
                Ok(m) => {
                    &&& m.start == position
                    &&& position < m.end <= input@.len()
                    &&& step_at(input@, position as int) == Some((m.token@, m.end as int))
                },
                Err(e) => {
                    &&& step_at(input@, position as int) == None::<(TokenModel, int)>
                    &&& e == LexError::Invalid(position, input@[position as int])
                },
            },
    {
        // Binding the length tells the verifier that positions inside the
        // input fit in usize, which the additions below need.
        let _input_len: usize = input.len();
        proof {
            lemma_keyword_bounds(input@, position as int);
        }
        match keyword_match(input, position) {
            Some((token, len)) => Ok(MatchResult { token, start: position, end: position + len }),
            None => {
                let b: u8 = input[position];
                if b == 40 {
                    Ok(MatchResult { token: LexicalToken::LParen, start: position, end: position + 1 })
                } else if b == 41 {
                    Ok(MatchResult { token: LexicalToken::RParen, start: position, end: position + 1 })
                } else if b == 59 {
                    Ok(
                        MatchResult {
                            token: LexicalToken::Semicolon,
                            start: position,
                            end: position + 1,
                        },
                    )
                } else {
                    let end: usize = ident_scan(input, position);
                    if position < end {
                        let text = ident_string(input, position, end);
                        proof {
                            assert(text@ =~= ident_chars(input@, position as int));
                        }
                        Ok(MatchResult { token: LexicalToken::Text(text), start: position, end })
                    } else {
                        proof {
                            lemma_ident_end(input@, position as int);
                        }
                        Err(LexError::Invalid(position, b))
                    }
                }
            },
        }
    }

    /// Advances past the run of whitespace bytes that starts at `position`.
    fn skip_space(&self, input: &Vec<u8>, position: usize) -> (r: usize)
        requires
            position <= input@.len(),
        ensures
            position <= r <= input@.len(),
            forall|i: int| position <= i < r ==> is_space_byte(#[trigger] input@[i]),
            r < input@.len() ==> !is_space_byte(input@[r as int]),
    {
        let mut new_position: usize = position;
        while new_position < input.len()
            && (input[new_position] == 32 || input[new_position] == 10 || input[new_position] == 9)
            invariant
                position <= new_position <= input@.len(),
                forall|i: int| position <= i < new_position ==> is_space_byte(#[trigger] input@[i]),
            decreases input@.len() - new_position,
        {
            new_position = new_position + 1;
        }
        new_position
    }

    /// Tokenizes the whole input: the token sequence of its UTF-8 bytes, or
    /// the first lexical error, exactly as [`spec_tokenize`] says.
    pub fn run(&self, input: &str) -> (r: Result<Vec<LexicalToken>, LexError>)
        ensures
            match r {
                Ok(tokens) => spec_tokenize(input.spec_bytes()) == Ok::<
                    Seq<TokenModel>,
                    LexError,
                >(tokens_view(tokens@)),
                Err(e) => spec_tokenize(input.spec_bytes()) == Err::<Seq<TokenModel>, LexError>(e),
            },
    {
        let bytes: Vec<u8> = input.as_bytes_vec();
        let mut pos: usize = 0;
        let mut tokens: Vec<LexicalToken> = Vec::new();
        proof {
            match lex_rest(bytes@, 0) {
                Ok(s) => {
                    assert(tokens_view(tokens@) + s =~= s);
                },
                Err(_) => {},
            }
        }
        while pos < bytes.len()
            invariant
                pos <= bytes@.len(),
                bytes@ == input.spec_bytes(),
                lex_with_prefix(tokens_view(tokens@), lex_rest(bytes@, pos as int))
                    == spec_tokenize(bytes@),
            decreases bytes@.len() - pos,
        {
            let b: u8 = bytes[pos];
            if b == 32 || b == 10 || b == 9 {
                let ghost old_pos = pos as int;
                pos = self.skip_space(&bytes, pos);
                proof {
                    lemma_lex_rest_spaces(bytes@, old_pos, pos as int);
                }
            } else if b == 44 {
                let ghost prefix = tokens_view(tokens@);
                tokens.push(LexicalToken::Comma);
                pos = pos + 1;
                proof {
                    assert(tokens_view(tokens@) =~= prefix.push(TokenModel::Comma));
                    lemma_with_prefix_push(
                        prefix,
                        TokenModel::Comma,
                        lex_rest(bytes@, pos as int),
                    );
                }
            } else {
                match self.check(&bytes, pos) {
                    Ok(m) => {
                        let ghost prefix = tokens_view(tokens@);
                        let ghost tok = m.token@;
                        let end: usize = m.end;
                        tokens.push(m.token);
                        pos = end;
                        proof {
                            assert(tokens_view(tokens@) =~= prefix.push(tok));
                            lemma_with_prefix_push(prefix, tok, lex_rest(bytes@, pos as int));
                        }
                    },
                    Err(e) => {
                        return Err(e);
                    },
                }
            }
        }
        proof {
            assert(tokens_view(tokens@) + Seq::<TokenModel>::empty() =~= tokens_view(tokens@));
        }
        Ok(tokens)
    }
}

} // verus!
