//! The query language: from the text of a statement to the statement.
//!
//! ```text
//! <stmt>   ::= <select> | <insert> | <delete>
//! <select> ::= 'select' ('*' | 'count()') 'from' <db> '.' <tbl>
//!              [ 'where' <expr> ] [ 'order' 'by' <ident> ]
//! <insert> ::= 'insert' 'into' <db> '.' <tbl> '(' <ident> (',' <ident>)* ')'
//!              'values' <row> (',' <row>)*
//! <row>    ::= '(' <lit> (',' <lit>)* ')'
//! <delete> ::= 'delete' 'from' <db> '.' <tbl> [ 'where' <expr> ]
//! <expr>   ::= 'true' | 'false' | <int> | <ident> | <expr> '=' <expr>
//! ```
//!
//! A text is first cut into tokens; the statement is then read from the
//! tokens. `=` groups to the left.

use crate::ast::{spec_option_view, Expr, SpecExpr, SpecStmt, Stmt};
use crate::text::{chars_equal, chars_to_string, copy_chars, is_digit, parse_i32, spec_is_digit,
    spec_parse_i32, to_chars};
use vstd::prelude::*;
use vstd::string::StringExecFns;

verus! {

// ---------------------------------------------------------------------
// Tokens
// ---------------------------------------------------------------------

/// A token of the query language.
#[derive(Debug)]
pub enum Token {
    Select,
    From,
    Where,
    Order,
    By,
    Insert,
    Into,
    Values,
    Delete,
    True,
    False,
    /// `count()`
    Count,
    /// `*`
    Star,
    LParen,
    RParen,
    Comma,
    Dot,
    /// `=`
    Equals,
    /// A name: a letter or `_`, then letters, digits and `_`.
    Ident(String),
    /// A number: digits, with or without a `-` in front.
    Number(String),
    /// A text in single or double quotes; the token holds what stands
    /// between the quotes.
    Text(String),
}

/// A token, as a mathematical value.
pub enum SpecToken {
    Select,
    From,
    Where,
    Order,
    By,
    Insert,
    Into,
    Values,
    Delete,
    True,
    False,
    Count,
    Star,
    LParen,
    RParen,
    Comma,
    Dot,
    Equals,
    Ident(Seq<char>),
    Number(Seq<char>),
    Text(Seq<char>),
}

impl View for Token {
    type V = SpecToken;

    open spec fn view(&self) -> SpecToken {
        match self {
            Token::Select => SpecToken::Select,
            Token::From => SpecToken::From,
            Token::Where => SpecToken::Where,
            Token::Order => SpecToken::Order,
            Token::By => SpecToken::By,
            Token::Insert => SpecToken::Insert,
            Token::Into => SpecToken::Into,
            Token::Values => SpecToken::Values,
            Token::Delete => SpecToken::Delete,
            Token::True => SpecToken::True,
            Token::False => SpecToken::False,
            Token::Count => SpecToken::Count,
            Token::Star => SpecToken::Star,
            Token::LParen => SpecToken::LParen,
            Token::RParen => SpecToken::RParen,
            Token::Comma => SpecToken::Comma,
            Token::Dot => SpecToken::Dot,
            Token::Equals => SpecToken::Equals,
            Token::Ident(s) => SpecToken::Ident(s@),
            Token::Number(s) => SpecToken::Number(s@),
            Token::Text(s) => SpecToken::Text(s@),
        }
    }
}

/// The tokens of a vector, as mathematical values.
pub open spec fn spec_token_views(tokens: Seq<Token>) -> Seq<SpecToken> {
    tokens.map_values(|t: Token| t@)
}

/// Whether a character separates tokens: a blank, a tab or a line end.
pub open spec fn spec_is_space(c: char) -> bool {
    c == ' ' || c == '\t' || c == '\n' || c == '\r'
}

/// Whether a name can start with a character: a letter or `_`.
pub open spec fn spec_is_ident_start(c: char) -> bool {
    ('a' <= c && c <= 'z') || ('A' <= c && c <= 'Z') || c == '_'
}

/// Whether a name can go on with a character: a letter, `_` or a digit.
pub open spec fn spec_is_ident_char(c: char) -> bool {
    spec_is_ident_start(c) || spec_is_digit(c)
}

/// Where the run of name characters that starts at `i` ends.
pub open spec fn spec_ident_end(s: Seq<char>, i: int) -> int
    decreases s.len() - i,
{
    if 0 <= i < s.len() && spec_is_ident_char(s[i]) {
        spec_ident_end(s, i + 1)
    } else {
        i
    }
}

/// Where the run of digits that starts at `i` ends.
pub open spec fn spec_digits_end(s: Seq<char>, i: int) -> int
    decreases s.len() - i,
{
    if 0 <= i < s.len() && spec_is_digit(s[i]) {
        spec_digits_end(s, i + 1)
    } else {
        i
    }
}

/// Where the first `quote` at or after `i` stands; the length of the text
/// if there is none.
pub open spec fn spec_quote_at(s: Seq<char>, i: int, quote: char) -> int
    decreases s.len() - i,
{
    if 0 <= i < s.len() && s[i] != quote {
        spec_quote_at(s, i + 1, quote)
    } else {
        i
    }
}

/// A run of name characters ends at or behind its start, inside the text.
pub proof fn lemma_ident_end(s: Seq<char>, i: int)
    requires
        0 <= i <= s.len(),
    ensures
        i <= spec_ident_end(s, i) <= s.len(),
    decreases s.len() - i,
{
    if i < s.len() && spec_is_ident_char(s[i]) {
        lemma_ident_end(s, i + 1);
    }
}

/// A run of digits ends at or behind its start, inside the text.
pub proof fn lemma_digits_end(s: Seq<char>, i: int)
    requires
        0 <= i <= s.len(),
    ensures
        i <= spec_digits_end(s, i) <= s.len(),
    decreases s.len() - i,
{
    if i < s.len() && spec_is_digit(s[i]) {
        lemma_digits_end(s, i + 1);
    }
}

/// The first quote at or after a place stands at or behind that place.
pub proof fn lemma_quote_at(s: Seq<char>, i: int, quote: char)
    requires
        0 <= i <= s.len(),
    ensures
        i <= spec_quote_at(s, i, quote) <= s.len(),
    decreases s.len() - i,
{
    if i < s.len() && s[i] != quote {
        lemma_quote_at(s, i + 1, quote);
    }
}

/// The token that a word is: the keyword that it spells, or a name.
pub open spec fn spec_word_token(word: Seq<char>) -> SpecToken {
    if word == "select"@ {
        SpecToken::Select
    } else if word == "from"@ {
        SpecToken::From
    } else if word == "where"@ {
        SpecToken::Where
    } else if word == "order"@ {
        SpecToken::Order
    } else if word == "by"@ {
        SpecToken::By
    } else if word == "insert"@ {
        SpecToken::Insert
    } else if word == "into"@ {
        SpecToken::Into
    } else if word == "values"@ {
        SpecToken::Values
    } else if word == "delete"@ {
        SpecToken::Delete
    } else if word == "true"@ {
        SpecToken::True
    } else if word == "false"@ {
        SpecToken::False
    } else {
        SpecToken::Ident(word)
    }
}

/// The token that a character is by itself, if it is one.
pub open spec fn spec_punct(c: char) -> Option<SpecToken> {
    if c == '*' {
        Some(SpecToken::Star)
    } else if c == '(' {
        Some(SpecToken::LParen)
    } else if c == ')' {
        Some(SpecToken::RParen)
    } else if c == ',' {
        Some(SpecToken::Comma)
    } else if c == '.' {
        Some(SpecToken::Dot)
    } else if c == '=' {
        Some(SpecToken::Equals)
    } else {
        None
    }
}

/// A token in front of tokens, where there are tokens.
pub open spec fn spec_prepend(first: SpecToken, rest: Option<Seq<SpecToken>>) -> Option<
    Seq<SpecToken>,
> {
    match rest {
        Some(tokens) => Some(seq![first] + tokens),
        None => None,
    }
}

/// The tokens of a text from index `i` on; nothing if the text cannot be
/// cut into tokens. Blanks, tabs and line ends separate tokens. A word is a
/// keyword or a name; `count` with `()` right behind it is the token
/// `count()`.
pub open spec fn spec_tokens_from(s: Seq<char>, i: int) -> Option<Seq<SpecToken>>
    decreases s.len() - i,
{
    if i < 0 || i >= s.len() {
        Some(Seq::<SpecToken>::empty())
    } else if spec_is_space(s[i]) {
        spec_tokens_from(s, i + 1)
    } else if spec_is_ident_start(s[i]) {
        let e = spec_ident_end(s, i + 1);
        proof {
            lemma_ident_end(s, i + 1);
        }
        if s.subrange(i, e) == "count"@ && e + 1 < s.len() && s[e] == '(' && s[e + 1] == ')' {
            spec_prepend(SpecToken::Count, spec_tokens_from(s, e + 2))
        } else {
            spec_prepend(spec_word_token(s.subrange(i, e)), spec_tokens_from(s, e))
        }
    } else if spec_is_digit(s[i]) || (s[i] == '-' && i + 1 < s.len() && spec_is_digit(s[i + 1])) {
        let e = spec_digits_end(s, i + 1);
        proof {
            lemma_digits_end(s, i + 1);
        }
        spec_prepend(SpecToken::Number(s.subrange(i, e)), spec_tokens_from(s, e))
    } else if s[i] == '\'' || s[i] == '"' {
        let e = spec_quote_at(s, i + 1, s[i]);
        proof {
            lemma_quote_at(s, i + 1, s[i]);
        }
        if e >= s.len() {
            None
        } else {
            spec_prepend(SpecToken::Text(s.subrange(i + 1, e)), spec_tokens_from(s, e + 1))
        }
    } else {
        match spec_punct(s[i]) {
            Some(t) => spec_prepend(t, spec_tokens_from(s, i + 1)),
            None => None,
        }
    }
}

/// The tokens of a text.
pub open spec fn spec_tokens(s: Seq<char>) -> Option<Seq<SpecToken>> {
    spec_tokens_from(s, 0)
}

/// Tokens and, behind them, more tokens, where there are more.
pub open spec fn spec_followed_by(done: Seq<SpecToken>, rest: Option<Seq<SpecToken>>) -> Option<
    Seq<SpecToken>,
> {
    match rest {
        Some(tokens) => Some(done + tokens),
        None => None,
    }
}

fn is_word(word: &Vec<char>, spelling: &str) -> (same: bool)
    ensures
        same == (word@ == spelling@),
{
    let other = to_chars(spelling);
    chars_equal(word, &other)
}

/// The token that a word is.
fn word_token(word: Vec<char>) -> (token: Token)
    ensures
        token@ == spec_word_token(word@),
{
    if is_word(&word, "select") {
        Token::Select
    } else if is_word(&word, "from") {
        Token::From
    } else if is_word(&word, "where") {
        Token::Where
    } else if is_word(&word, "order") {
        Token::Order
    } else if is_word(&word, "by") {
        Token::By
    } else if is_word(&word, "insert") {
        Token::Insert
    } else if is_word(&word, "into") {
        Token::Into
    } else if is_word(&word, "values") {
        Token::Values
    } else if is_word(&word, "delete") {
        Token::Delete
    } else if is_word(&word, "true") {
        Token::True
    } else if is_word(&word, "false") {
        Token::False
    } else {
        Token::Ident(chars_to_string(&word))
    }
}

fn is_ident_start(c: char) -> (b: bool)
    ensures
        b == spec_is_ident_start(c),
{
    ('a' <= c && c <= 'z') || ('A' <= c && c <= 'Z') || c == '_'
}

fn ident_end(s: &Vec<char>, from: usize) -> (end: usize)
    requires
        from <= s.len(),
    ensures
        end == spec_ident_end(s@, from as int),
        from <= end <= s.len(),
{
    let mut i = from;
    while i < s.len() && (is_ident_start(s[i]) || is_digit(s[i]))
        invariant
            from <= i <= s.len(),
            spec_ident_end(s@, from as int) == spec_ident_end(s@, i as int),
        decreases s.len() - i,
    {
        i += 1;
    }
    i
}

fn digits_end(s: &Vec<char>, from: usize) -> (end: usize)
    requires
        from <= s.len(),
    ensures
        end == spec_digits_end(s@, from as int),
        from <= end <= s.len(),
{
    let mut i = from;
    while i < s.len() && is_digit(s[i])
        invariant
            from <= i <= s.len(),
            spec_digits_end(s@, from as int) == spec_digits_end(s@, i as int),
        decreases s.len() - i,
    {
        i += 1;
    }
    i
}

fn quote_at(s: &Vec<char>, from: usize, quote: char) -> (end: usize)
    requires
        from <= s.len(),
    ensures
        end == spec_quote_at(s@, from as int, quote),
        from <= end <= s.len(),
{
    let mut i = from;
    while i < s.len() && s[i] != quote
        invariant
            from <= i <= s.len(),
            spec_quote_at(s@, from as int, quote) == spec_quote_at(s@, i as int, quote),
        decreases s.len() - i,
    {
        i += 1;
    }
    i
}

/// Cuts a text into tokens; nothing if it cannot be cut.
pub fn tokenize(s: &Vec<char>) -> (r: Option<Vec<Token>>)
    ensures
        match spec_tokens(s@) {
            Some(tokens) => r matches Some(v) && spec_token_views(v@) == tokens,
            None => r is None,
        },
{
    let mut tokens: Vec<Token> = Vec::new();
    let mut i: usize = 0;
    while i < s.len()
        invariant
            i <= s.len(),
            spec_tokens(s@) == spec_followed_by(
                spec_token_views(tokens@),
                spec_tokens_from(s@, i as int),
            ),
        decreases s.len() - i,
    {
        let c = s[i];
        let ghost before = tokens@;
        if c == ' ' || c == '\t' || c == '\n' || c == '\r' {
            i += 1;
        } else if is_ident_start(c) {
            let e = ident_end(s, i + 1);
            let word = copy_chars(s, i, e);
            if is_word(&word, "count") && e < s.len() && e + 1 < s.len() && s[e] == '(' && s[e + 1]
                == ')' {
                tokens.push(Token::Count);
                i = e + 2;
                proof {
                    lemma_pushed(before, tokens@, spec_tokens_from(s@, i as int));
                }
            } else {
                tokens.push(word_token(word));
                i = e;
                proof {
                    lemma_pushed(before, tokens@, spec_tokens_from(s@, i as int));
                }
            }
        } else if is_digit(c) || (c == '-' && i + 1 < s.len() && is_digit(s[i + 1])) {
            let e = digits_end(s, i + 1);
            tokens.push(Token::Number(chars_to_string(&copy_chars(s, i, e))));
            i = e;
            proof {
                lemma_pushed(before, tokens@, spec_tokens_from(s@, i as int));
            }
        } else if c == '\'' || c == '"' {
            let e = quote_at(s, i + 1, c);
            if e >= s.len() {
                return None;
            }
            tokens.push(Token::Text(chars_to_string(&copy_chars(s, i + 1, e))));
            i = e + 1;
            proof {
                lemma_pushed(before, tokens@, spec_tokens_from(s@, i as int));
            }
        } else {
            let token = if c == '*' {
                Token::Star
            } else if c == '(' {
                Token::LParen
            } else if c == ')' {
                Token::RParen
            } else if c == ',' {
                Token::Comma
            } else if c == '.' {
                Token::Dot
            } else if c == '=' {
                Token::Equals
            } else {
                return None;
            };
            tokens.push(token);
            i += 1;
            proof {
                lemma_pushed(before, tokens@, spec_tokens_from(s@, i as int));
            }
        }
    }
    assert(spec_token_views(tokens@) + Seq::<SpecToken>::empty() == spec_token_views(tokens@));
    Some(tokens)
}

/// A token at the end of the tokens read so far, or at the start of those
/// yet to read: the same tokens in all.
proof fn lemma_pushed(before: Seq<Token>, tokens: Seq<Token>, rest: Option<Seq<SpecToken>>)
    requires
        tokens == before.push(tokens.last()),
    ensures
        spec_followed_by(spec_token_views(before), spec_prepend(tokens.last()@, rest))
            == spec_followed_by(spec_token_views(tokens), rest),
{
    let done = spec_token_views(before);
    if rest is Some {
        assert(spec_token_views(tokens) =~= done.push(tokens.last()@));
        assert(done + (seq![tokens.last()@] + rest->0) =~= done.push(tokens.last()@) + rest->0);
    }
}


// ---------------------------------------------------------------------
// Statements
// ---------------------------------------------------------------------

/// The expression that one token is, if it is one: a truth value, a number
/// that a 32-bit integer holds, or the name of a column.
pub open spec fn spec_term(token: SpecToken) -> Option<SpecExpr> {
    match token {
        SpecToken::True => Some(SpecExpr::Bool(true)),
        SpecToken::False => Some(SpecExpr::Bool(false)),
        SpecToken::Number(text) => match spec_parse_i32(text) {
            Some(n) => Some(SpecExpr::Number(n)),
            None => None,
        },
        SpecToken::Ident(name) => Some(SpecExpr::ColumnRef(name)),
        _ => None,
    }
}

/// The expression that starts with `left` and goes on at token `i` with
/// `=` and one more token at a time, as far as that goes; and where it
/// ends.
pub open spec fn spec_expr_rest(tokens: Seq<SpecToken>, i: int, left: SpecExpr) -> (SpecExpr, int)
    decreases tokens.len() - i,
{
    if 0 <= i && i + 1 < tokens.len() && tokens[i] is Equals && spec_term(tokens[i + 1]) is Some {
        spec_expr_rest(
            tokens,
            i + 2,
            SpecExpr::OpEq(Box::new(left), Box::new(spec_term(tokens[i + 1])->0)),
        )
    } else {
        (left, i)
    }
}

/// The expression that starts at token `i`, and where it ends.
pub open spec fn spec_expr(tokens: Seq<SpecToken>, i: int) -> Option<(SpecExpr, int)> {
    if 0 <= i < tokens.len() && spec_term(tokens[i]) is Some {
        Some(spec_expr_rest(tokens, i + 1, spec_term(tokens[i])->0))
    } else {
        None
    }
}

/// The database and the table that are named at token `i`: a name, a dot
/// and a name.
pub open spec fn spec_table(tokens: Seq<SpecToken>, i: int) -> Option<(Seq<char>, Seq<char>)> {
    if 0 <= i && i + 2 < tokens.len() && tokens[i] is Ident && tokens[i + 1] is Dot && tokens[i
        + 2] is Ident {
        Some((tokens[i]->Ident_0, tokens[i + 2]->Ident_0))
    } else {
        None
    }
}

/// The `where` condition at token `i`, if there is `where`, and where what
/// follows starts; nothing if `where` is not followed by an expression.
pub open spec fn spec_where(tokens: Seq<SpecToken>, i: int) -> Option<(Option<SpecExpr>, int)> {
    if 0 <= i < tokens.len() && tokens[i] is Where {
        match spec_expr(tokens, i + 1) {
            Some((e, j)) => Some((Some(e), j)),
            None => None,
        }
    } else {
        Some((None, i))
    }
}

/// The column to order by at token `i`, if there is `order`, and where what
/// follows starts; nothing if `order` is not followed by `by` and a name.
pub open spec fn spec_order(tokens: Seq<SpecToken>, i: int) -> Option<(Option<Seq<char>>, int)> {
    if 0 <= i < tokens.len() && tokens[i] is Order {
        if i + 2 < tokens.len() && tokens[i + 1] is By && tokens[i + 2] is Ident {
            Some((Some(tokens[i + 2]->Ident_0), i + 3))
        } else {
            None
        }
    } else {
        Some((None, i))
    }
}

/// The `select` statement that the tokens are, if they are one.
pub open spec fn spec_select(tokens: Seq<SpecToken>) -> Option<SpecStmt> {
    if tokens.len() >= 3 && tokens[0] is Select && (tokens[1] is Star || tokens[1] is Count)
        && tokens[2] is From {
        match spec_table(tokens, 3) {
            None => None,
            Some((db, table)) => match spec_where(tokens, 6) {
                None => None,
                Some((qual, j)) => match spec_order(tokens, j) {
                    None => None,
                    Some((sort, k)) => if k == tokens.len() {
                        Some(
                            SpecStmt::SelectStmt(
                                if tokens[1] is Star {
                                    SpecExpr::All
                                } else {
                                    SpecExpr::Count
                                },
                                db,
                                table,
                                qual,
                                sort,
                            ),
                        )
                    } else {
                        None
                    },
                },
            },
        }
    } else {
        None
    }
}

/// The `delete` statement that the tokens are, if they are one.
pub open spec fn spec_delete(tokens: Seq<SpecToken>) -> Option<SpecStmt> {
    if tokens.len() >= 2 && tokens[0] is Delete && tokens[1] is From {
        match spec_table(tokens, 2) {
            None => None,
            Some((db, table)) => match spec_where(tokens, 5) {
                None => None,
                Some((qual, j)) => if j == tokens.len() {
                    Some(SpecStmt::DeleteStmt(db, table, qual))
                } else {
                    None
                },
            },
        }
    } else {
        None
    }
}

/// The names from token `i` on, behind those in `names`: names with commas
/// between them up to a closing parenthesis; and where what follows starts.
pub open spec fn spec_names_from(tokens: Seq<SpecToken>, i: int, names: Seq<Seq<char>>) -> Option<
    (Seq<Seq<char>>, int),
>
    decreases tokens.len() - i,
{
    if 0 <= i && i + 1 < tokens.len() && tokens[i] is Ident {
        if tokens[i + 1] is RParen {
            Some((names.push(tokens[i]->Ident_0), i + 2))
        } else if tokens[i + 1] is Comma {
            spec_names_from(tokens, i + 2, names.push(tokens[i]->Ident_0))
        } else {
            None
        }
    } else {
        None
    }
}

/// The text of a value, if the token is one: a number or a quoted text.
pub open spec fn spec_lit(token: SpecToken) -> Option<Seq<char>> {
    match token {
        SpecToken::Number(text) => Some(text),
        SpecToken::Text(text) => Some(text),
        _ => None,
    }
}

/// The values from token `i` on, behind those in `values`: values with
/// commas between them up to a closing parenthesis; and where what follows
/// starts.
pub open spec fn spec_lits_from(tokens: Seq<SpecToken>, i: int, values: Seq<Seq<char>>) -> Option<
    (Seq<Seq<char>>, int),
>
    decreases tokens.len() - i,
{
    if 0 <= i && i + 1 < tokens.len() && spec_lit(tokens[i]) is Some {
        if tokens[i + 1] is RParen {
            Some((values.push(spec_lit(tokens[i])->0), i + 2))
        } else if tokens[i + 1] is Comma {
            spec_lits_from(tokens, i + 2, values.push(spec_lit(tokens[i])->0))
        } else {
            None
        }
    } else {
        None
    }
}

/// The row at token `i`: values in parentheses; and where what follows
/// starts.
pub open spec fn spec_row(tokens: Seq<SpecToken>, i: int) -> Option<(Seq<Seq<char>>, int)> {
    if 0 <= i < tokens.len() && tokens[i] is LParen {
        spec_lits_from(tokens, i + 1, Seq::<Seq<char>>::empty())
    } else {
        None
    }
}

/// What is read from a place on ends behind that place.
pub proof fn lemma_lits_advance(tokens: Seq<SpecToken>, i: int, values: Seq<Seq<char>>)
    ensures
        spec_lits_from(tokens, i, values) matches Some((_, j)) ==> i < j <= tokens.len(),
    decreases tokens.len() - i,
{
    if 0 <= i && i + 1 < tokens.len() && spec_lit(tokens[i]) is Some && tokens[i + 1] is Comma {
        lemma_lits_advance(tokens, i + 2, values.push(spec_lit(tokens[i])->0));
    }
}

/// The rows from token `i` to the end of the tokens, behind those in
/// `rows`: rows with commas between them.
pub open spec fn spec_rows_from(
    tokens: Seq<SpecToken>,
    i: int,
    rows: Seq<Seq<Seq<char>>>,
) -> Option<Seq<Seq<Seq<char>>>>
    decreases tokens.len() - i,
{
    match spec_row(tokens, i) {
        None => None,
        Some((row, j)) => {
            proof {
                lemma_lits_advance(tokens, i + 1, Seq::<Seq<char>>::empty());
            }
            if j == tokens.len() {
                Some(rows.push(row))
            } else if tokens[j] is Comma {
                spec_rows_from(tokens, j + 1, rows.push(row))
            } else {
                None
            }
        },
    }
}

/// The `insert` statement that the tokens are, if they are one.
pub open spec fn spec_insert(tokens: Seq<SpecToken>) -> Option<SpecStmt> {
    if tokens.len() >= 6 && tokens[0] is Insert && tokens[1] is Into && tokens[5] is LParen {
        match spec_table(tokens, 2) {
            None => None,
            Some((db, table)) => match spec_names_from(tokens, 6, Seq::<Seq<char>>::empty()) {
                None => None,
                Some((names, j)) => if j < tokens.len() && tokens[j] is Values {
                    match spec_rows_from(tokens, j + 1, Seq::<Seq<Seq<char>>>::empty()) {
                        None => None,
                        Some(rows) => Some(SpecStmt::InsertStmt(db, table, names, rows)),
                    }
                } else {
                    None
                },
            },
        }
    } else {
        None
    }
}

/// The statement that the tokens are, if they are one.
pub open spec fn spec_stmt(tokens: Seq<SpecToken>) -> Option<SpecStmt> {
    if tokens.len() == 0 {
        None
    } else if tokens[0] is Select {
        spec_select(tokens)
    } else if tokens[0] is Insert {
        spec_insert(tokens)
    } else if tokens[0] is Delete {
        spec_delete(tokens)
    } else {
        None
    }
}

/// The statement that a text is, if it is one.
pub open spec fn spec_parse(query: Seq<char>) -> Option<SpecStmt> {
    match spec_tokens(query) {
        None => None,
        Some(tokens) => spec_stmt(tokens),
    }
}

/// What is said of a text that is no statement.
pub open spec fn spec_syntax_message() -> Seq<char> {
    "Invalid syntax"@
}

// ---------------------------------------------------------------------
// Statements as tokens
// ---------------------------------------------------------------------

/// Whether an expression is one that a single token stands for: a truth
/// value, a number or the name of a column.
pub open spec fn spec_is_term(e: SpecExpr) -> bool {
    e is Bool || e is Number || e is ColumnRef
}

/// Whether an expression is a condition as the language writes it: a term,
/// or a condition and a term with `=` between them.
pub open spec fn spec_is_condition(e: SpecExpr) -> bool
    decreases e,
{
    match e {
        SpecExpr::OpEq(left, right) => spec_is_condition(*left) && spec_is_term(*right),
        _ => spec_is_term(e),
    }
}

/// The token that stands for a term.
pub open spec fn spec_term_token(e: SpecExpr) -> SpecToken {
    match e {
        SpecExpr::Bool(b) => if b {
            SpecToken::True
        } else {
            SpecToken::False
        },
        SpecExpr::Number(n) => SpecToken::Number(crate::text::spec_decimal_int(n as int)),
        SpecExpr::ColumnRef(name) => SpecToken::Ident(name),
        _ => SpecToken::Star,
    }
}

/// The tokens that a condition is written with.
pub open spec fn spec_expr_tokens(e: SpecExpr) -> Seq<SpecToken>
    decreases e,
{
    match e {
        SpecExpr::OpEq(left, right) => spec_expr_tokens(*left).push(SpecToken::Equals).push(
            spec_term_token(*right),
        ),
        _ => seq![spec_term_token(e)],
    }
}

/// The tokens that the name of a table in a database is written with.
pub open spec fn spec_table_tokens(db: Seq<char>, table: Seq<char>) -> Seq<SpecToken> {
    seq![SpecToken::Ident(db), SpecToken::Dot, SpecToken::Ident(table)]
}

/// The tokens that a `where` condition is written with, if there is one.
pub open spec fn spec_where_tokens(qual: Option<SpecExpr>) -> Seq<SpecToken> {
    match qual {
        Some(e) => seq![SpecToken::Where] + spec_expr_tokens(e),
        None => Seq::<SpecToken>::empty(),
    }
}

/// The tokens that a column to order by is written with, if there is one.
pub open spec fn spec_order_tokens(sort: Option<Seq<char>>) -> Seq<SpecToken> {
    match sort {
        Some(column) => seq![SpecToken::Order, SpecToken::By, SpecToken::Ident(column)],
        None => Seq::<SpecToken>::empty(),
    }
}

/// The tokens that names, from the name `i` on, are written with up to the
/// closing parenthesis: commas between them.
pub open spec fn spec_names_tokens(names: Seq<Seq<char>>, i: int) -> Seq<SpecToken>
    decreases names.len() - i,
{
    if i < 0 || i >= names.len() {
        Seq::<SpecToken>::empty()
    } else if i == names.len() - 1 {
        seq![SpecToken::Ident(names[i]), SpecToken::RParen]
    } else {
        seq![SpecToken::Ident(names[i]), SpecToken::Comma] + spec_names_tokens(names, i + 1)
    }
}

/// The tokens that the values of a row, from the value `i` on, are written
/// with up to the closing parenthesis: each as a quoted text, commas
/// between them.
pub open spec fn spec_values_tokens(values: Seq<Seq<char>>, i: int) -> Seq<SpecToken>
    decreases values.len() - i,
{
    if i < 0 || i >= values.len() {
        Seq::<SpecToken>::empty()
    } else if i == values.len() - 1 {
        seq![SpecToken::Text(values[i]), SpecToken::RParen]
    } else {
        seq![SpecToken::Text(values[i]), SpecToken::Comma] + spec_values_tokens(values, i + 1)
    }
}

/// The tokens that rows, from the row `i` on, are written with: each in
/// parentheses, commas between them.
pub open spec fn spec_rows_tokens(rows: Seq<Seq<Seq<char>>>, i: int) -> Seq<SpecToken>
    decreases rows.len() - i,
{
    if i < 0 || i >= rows.len() {
        Seq::<SpecToken>::empty()
    } else if i == rows.len() - 1 {
        seq![SpecToken::LParen] + spec_values_tokens(rows[i], 0)
    } else {
        seq![SpecToken::LParen] + spec_values_tokens(rows[i], 0) + seq![SpecToken::Comma]
            + spec_rows_tokens(rows, i + 1)
    }
}

/// The tokens that a statement is written with.
pub open spec fn spec_stmt_tokens(stmt: SpecStmt) -> Seq<SpecToken> {
    match stmt {
        SpecStmt::SelectStmt(what, db, table, qual, sort) => seq![
            SpecToken::Select,
            if what is All {
                SpecToken::Star
            } else {
                SpecToken::Count
            },
            SpecToken::From,
        ] + spec_table_tokens(db, table) + spec_where_tokens(qual) + spec_order_tokens(sort),
        SpecStmt::InsertStmt(db, table, names, rows) => seq![SpecToken::Insert, SpecToken::Into]
            + spec_table_tokens(db, table) + seq![SpecToken::LParen] + spec_names_tokens(names, 0)
            + seq![SpecToken::Values] + spec_rows_tokens(rows, 0),
        SpecStmt::DeleteStmt(db, table, qual) => seq![SpecToken::Delete, SpecToken::From]
            + spec_table_tokens(db, table) + spec_where_tokens(qual),
    }
}

/// Whether a statement is one that the language can write: a `select` asks
/// for `*` or `count()`, a `where` condition is a condition as the language
/// writes it, and an `insert` names at least one column and has at least
/// one row, each of at least one value.
pub open spec fn spec_stmt_writable(stmt: SpecStmt) -> bool {
    match stmt {
        SpecStmt::SelectStmt(what, _, _, qual, _) => (what is All || what is Count) && (
        qual matches Some(e) ==> spec_is_condition(e)),
        SpecStmt::InsertStmt(_, _, names, rows) => names.len() >= 1 && rows.len() >= 1 && (
        forall|i: int| 0 <= i < rows.len() ==> (#[trigger] rows[i]).len() >= 1),
        SpecStmt::DeleteStmt(_, _, qual) => qual matches Some(e) ==> spec_is_condition(e),
    }
}

/// The token of a term is read as the term.
pub proof fn lemma_term_reads_back(e: SpecExpr)
    requires
        spec_is_term(e),
    ensures
        spec_term(spec_term_token(e)) == Some(e),
{
    if let SpecExpr::Number(n) = e {
        crate::text::lemma_parse_decimal_int(n);
    }
}

/// Where the tokens of a condition stand in a sequence of tokens, reading
/// an expression from their start reads the condition and goes on from
/// their end.
pub proof fn lemma_expr_reads_back(tokens: Seq<SpecToken>, i: int, e: SpecExpr)
    requires
        spec_is_condition(e),
        0 <= i,
        i + spec_expr_tokens(e).len() <= tokens.len(),
        tokens.subrange(i, i + spec_expr_tokens(e).len()) == spec_expr_tokens(e),
    ensures
        spec_expr_tokens(e).len() >= 1,
        spec_expr(tokens, i) == Some(spec_expr_rest(tokens, i + spec_expr_tokens(e).len(), e)),
    decreases e,
{
    let written = spec_expr_tokens(e);
    match e {
        SpecExpr::OpEq(left, right) => {
            let front = spec_expr_tokens(*left);
            assert(written == front.push(SpecToken::Equals).push(spec_term_token(*right)));
            assert(tokens.subrange(i, i + front.len()) =~= front) by {
                assert forall|k: int| 0 <= k < front.len() implies tokens.subrange(
                    i,
                    i + front.len(),
                )[k] == front[k] by {
                    assert(tokens.subrange(i, i + written.len())[k] == written[k]);
                }
            }
            lemma_expr_reads_back(tokens, i, *left);
            lemma_term_reads_back(*right);
            let at: int = i + front.len() as int;
            assert(tokens[at] == written[front.len() as int]) by {
                assert(tokens.subrange(i, i + written.len())[front.len() as int] == tokens[at]);
            }
            assert(tokens[at + 1] == written[front.len() as int + 1]) by {
                assert(tokens.subrange(i, i + written.len())[front.len() as int + 1] == tokens[at
                    + 1]);
            }
            assert(spec_expr_rest(tokens, at, *left) == spec_expr_rest(tokens, at + 2, e));
        },
        _ => {
            lemma_term_reads_back(e);
            assert(tokens[i] == written[0]) by {
                assert(tokens.subrange(i, i + written.len())[0] == tokens[i]);
            }
        },
    }
}

/// Where the tokens of names stand in a sequence of tokens, reading names
/// from their start reads the names and ends behind the closing
/// parenthesis.
pub proof fn lemma_names_read_back(
    tokens: Seq<SpecToken>,
    at: int,
    names: Seq<Seq<char>>,
    i: int,
)
    requires
        0 <= i < names.len(),
        0 <= at,
        at + spec_names_tokens(names, i).len() <= tokens.len(),
        tokens.subrange(at, at + spec_names_tokens(names, i).len()) == spec_names_tokens(names, i),
    ensures
        spec_names_tokens(names, i).len() == 2 * (names.len() - i),
        spec_names_from(tokens, at, names.subrange(0, i)) == Some(
            (names, at + spec_names_tokens(names, i).len()),
        ),
    decreases names.len() - i,
{
    let written = spec_names_tokens(names, i);
    assert(tokens[at] == written[0] && tokens[at + 1] == written[1]) by {
        assert(tokens.subrange(at, at + written.len())[0] == tokens[at]);
        assert(tokens.subrange(at, at + written.len())[1] == tokens[at + 1]);
    }
    assert(names.subrange(0, i).push(names[i]) =~= names.subrange(0, i + 1));
    if i == names.len() - 1 {
        assert(names.subrange(0, i + 1) =~= names);
    } else {
        let rest = spec_names_tokens(names, i + 1);
        assert(written == seq![SpecToken::Ident(names[i]), SpecToken::Comma] + rest);
        assert(tokens.subrange(at + 2, at + 2 + rest.len()) =~= rest) by {
            assert forall|k: int| 0 <= k < rest.len() implies tokens.subrange(
                at + 2,
                at + 2 + rest.len(),
            )[k] == rest[k] by {
                assert(tokens.subrange(at, at + written.len())[k + 2] == written[k + 2]);
            }
        }
        lemma_names_read_back(tokens, at + 2, names, i + 1);
    }
}

/// Where the tokens of the values of a row stand in a sequence of tokens,
/// reading values from their start reads the values and ends behind the
/// closing parenthesis.
pub proof fn lemma_values_read_back(
    tokens: Seq<SpecToken>,
    at: int,
    values: Seq<Seq<char>>,
    i: int,
)
    requires
        0 <= i < values.len(),
        0 <= at,
        at + spec_values_tokens(values, i).len() <= tokens.len(),
        tokens.subrange(at, at + spec_values_tokens(values, i).len()) == spec_values_tokens(
            values,
            i,
        ),
    ensures
        spec_values_tokens(values, i).len() == 2 * (values.len() - i),
        spec_lits_from(tokens, at, values.subrange(0, i)) == Some(
            (values, at + spec_values_tokens(values, i).len()),
        ),
    decreases values.len() - i,
{
    let written = spec_values_tokens(values, i);
    assert(tokens[at] == written[0] && tokens[at + 1] == written[1]) by {
        assert(tokens.subrange(at, at + written.len())[0] == tokens[at]);
        assert(tokens.subrange(at, at + written.len())[1] == tokens[at + 1]);
    }
    assert(values.subrange(0, i).push(values[i]) =~= values.subrange(0, i + 1));
    if i == values.len() - 1 {
        assert(values.subrange(0, i + 1) =~= values);
    } else {
        let rest = spec_values_tokens(values, i + 1);
        assert(written == seq![SpecToken::Text(values[i]), SpecToken::Comma] + rest);
        assert(tokens.subrange(at + 2, at + 2 + rest.len()) =~= rest) by {
            assert forall|k: int| 0 <= k < rest.len() implies tokens.subrange(
                at + 2,
                at + 2 + rest.len(),
            )[k] == rest[k] by {
                assert(tokens.subrange(at, at + written.len())[k + 2] == written[k + 2]);
            }
        }
        lemma_values_read_back(tokens, at + 2, values, i + 1);
    }
}

/// Where the tokens of rows stand at the end of a sequence of tokens,
/// reading rows from their start reads the rows.
pub proof fn lemma_rows_read_back(
    tokens: Seq<SpecToken>,
    at: int,
    rows: Seq<Seq<Seq<char>>>,
    i: int,
)
    requires
        0 <= i < rows.len(),
        forall|k: int| 0 <= k < rows.len() ==> (#[trigger] rows[k]).len() >= 1,
        0 <= at,
        at + spec_rows_tokens(rows, i).len() == tokens.len(),
        tokens.subrange(at, tokens.len() as int) == spec_rows_tokens(rows, i),
    ensures
        spec_rows_from(tokens, at, rows.subrange(0, i)) == Some(rows),
    decreases rows.len() - i,
{
    let written = spec_rows_tokens(rows, i);
    let values = spec_values_tokens(rows[i], 0);
    assert(rows[i].len() >= 1);
    assert(written.len() >= 1 + values.len());
    assert(tokens[at] == written[0]) by {
        assert(tokens.subrange(at, tokens.len() as int)[0] == tokens[at]);
    }
    assert(tokens.subrange(at + 1, at + 1 + values.len()) =~= values) by {
        assert forall|k: int| 0 <= k < values.len() implies tokens.subrange(
            at + 1,
            at + 1 + values.len(),
        )[k] == values[k] by {
            assert(tokens.subrange(at, tokens.len() as int)[k + 1] == written[k + 1]);
        }
    }
    assert(rows[i].subrange(0, 0) =~= Seq::<Seq<char>>::empty());
    lemma_values_read_back(tokens, at + 1, rows[i], 0);
    let end: int = at + 1 + values.len() as int;
    assert(spec_row(tokens, at) == Some((rows[i], end)));
    assert(rows.subrange(0, i).push(rows[i]) =~= rows.subrange(0, i + 1));
    if i == rows.len() - 1 {
        assert(rows.subrange(0, i + 1) =~= rows);
        assert(end == tokens.len());
    } else {
        let rest = spec_rows_tokens(rows, i + 1);
        assert(written == seq![SpecToken::LParen] + values + seq![SpecToken::Comma] + rest);
        assert(tokens[end] == written[1 + values.len() as int]) by {
            assert(tokens.subrange(at, tokens.len() as int)[1 + values.len() as int]
                == tokens[end]);
        }
        assert(tokens.subrange(end + 1, tokens.len() as int) =~= rest) by {
            assert forall|k: int| 0 <= k < rest.len() implies tokens.subrange(
                end + 1,
                tokens.len() as int,
            )[k] == rest[k] by {
                assert(tokens.subrange(at, tokens.len() as int)[k + 2 + values.len() as int]
                    == written[k + 2 + values.len() as int]);
            }
        }
        lemma_rows_read_back(tokens, end + 1, rows, i + 1);
    }
}

/// A `select` that the language can write is read back from its tokens.
proof fn lemma_select_reads_back(
    what: SpecExpr,
    db: Seq<char>,
    table: Seq<char>,
    qual: Option<SpecExpr>,
    sort: Option<Seq<char>>,
)
    requires
        what is All || what is Count,
        qual matches Some(e) ==> spec_is_condition(e),
    ensures
        spec_select(spec_stmt_tokens(SpecStmt::SelectStmt(what, db, table, qual, sort))) == Some(
            SpecStmt::SelectStmt(what, db, table, qual, sort),
        ),
{
    let tokens = spec_stmt_tokens(SpecStmt::SelectStmt(what, db, table, qual, sort));
    let head = seq![
        SpecToken::Select,
        if what is All {
            SpecToken::Star
        } else {
            SpecToken::Count
        },
        SpecToken::From,
    ] + spec_table_tokens(db, table);
    let filter = spec_where_tokens(qual);
    let order = spec_order_tokens(sort);
    assert(tokens == head + filter + order);
    assert(head.len() == 6);
    assert(tokens.len() == 6 + filter.len() + order.len());
    assert(tokens[0] == head[0] && tokens[1] == head[1] && tokens[2] == head[2] && tokens[3]
        == head[3] && tokens[4] == head[4] && tokens[5] == head[5]);
    assert(spec_table(tokens, 3) == Some((db, table)));
    assert(tokens.subrange(6, tokens.len() as int) =~= filter + order);
    lemma_where_reads_back(tokens, 6, qual, order);
    let j: int = 6 + filter.len() as int;
    assert(spec_where(tokens, 6) == Some((qual, j)));
    if sort is Some {
        assert(tokens[j] == order[0]);
        assert(tokens[j + 1] == order[1]);
        assert(tokens[j + 2] == order[2]);
    }
    assert(spec_order(tokens, j) == Some((sort, tokens.len() as int)));
}

/// A `delete` that the language can write is read back from its tokens.
proof fn lemma_delete_reads_back(db: Seq<char>, table: Seq<char>, qual: Option<SpecExpr>)
    requires
        qual matches Some(e) ==> spec_is_condition(e),
    ensures
        spec_delete(spec_stmt_tokens(SpecStmt::DeleteStmt(db, table, qual))) == Some(
            SpecStmt::DeleteStmt(db, table, qual),
        ),
{
    let tokens = spec_stmt_tokens(SpecStmt::DeleteStmt(db, table, qual));
    let head = seq![SpecToken::Delete, SpecToken::From] + spec_table_tokens(db, table);
    let filter = spec_where_tokens(qual);
    let nothing = Seq::<SpecToken>::empty();
    assert(tokens == head + filter);
    assert(head.len() == 5);
    assert(tokens[0] == head[0] && tokens[1] == head[1] && tokens[2] == head[2] && tokens[3]
        == head[3] && tokens[4] == head[4]);
    assert(spec_table(tokens, 2) == Some((db, table)));
    assert(tokens.subrange(5, tokens.len() as int) =~= filter + nothing);
    lemma_where_reads_back(tokens, 5, qual, nothing);
}

/// An `insert` that the language can write is read back from its tokens.
proof fn lemma_insert_reads_back(
    db: Seq<char>,
    table: Seq<char>,
    names: Seq<Seq<char>>,
    rows: Seq<Seq<Seq<char>>>,
)
    requires
        names.len() >= 1,
        rows.len() >= 1,
        forall|i: int| 0 <= i < rows.len() ==> (#[trigger] rows[i]).len() >= 1,
    ensures
        spec_insert(spec_stmt_tokens(SpecStmt::InsertStmt(db, table, names, rows))) == Some(
            SpecStmt::InsertStmt(db, table, names, rows),
        ),
{
    let tokens = spec_stmt_tokens(SpecStmt::InsertStmt(db, table, names, rows));
    let head = seq![SpecToken::Insert, SpecToken::Into] + spec_table_tokens(db, table) + seq![
        SpecToken::LParen,
    ];
    let named = spec_names_tokens(names, 0);
    let listed = spec_rows_tokens(rows, 0);
    assert(tokens == head + named + seq![SpecToken::Values] + listed);
    assert(head.len() == 6);
    assert(tokens.len() == 6 + named.len() + 1 + listed.len());
    assert(tokens[0] == head[0] && tokens[1] == head[1] && tokens[2] == head[2] && tokens[3]
        == head[3] && tokens[4] == head[4] && tokens[5] == head[5]);
    assert(spec_table(tokens, 2) == Some((db, table)));
    assert(tokens.subrange(6, 6 + named.len() as int) =~= named);
    assert(names.subrange(0, 0) =~= Seq::<Seq<char>>::empty());
    lemma_names_read_back(tokens, 6, names, 0);
    let j: int = 6 + named.len() as int;
    assert(tokens[j] == SpecToken::Values);
    assert(tokens.subrange(j + 1, tokens.len() as int) =~= listed);
    assert(rows.subrange(0, 0) =~= Seq::<Seq<Seq<char>>>::empty());
    lemma_rows_read_back(tokens, j + 1, rows, 0);
}

/// A statement that the language can write is read back from the tokens
/// that it is written with.
pub proof fn lemma_stmt_reads_back(stmt: SpecStmt)
    requires
        spec_stmt_writable(stmt),
    ensures
        spec_stmt(spec_stmt_tokens(stmt)) == Some(stmt),
{
    match stmt {
        SpecStmt::SelectStmt(what, db, table, qual, sort) => {
            lemma_select_reads_back(what, db, table, qual, sort);
        },
        SpecStmt::InsertStmt(db, table, names, rows) => {
            lemma_insert_reads_back(db, table, names, rows);
        },
        SpecStmt::DeleteStmt(db, table, qual) => {
            lemma_delete_reads_back(db, table, qual);
        },
    }
}

/// Where the tokens of a `where` condition stand in a sequence of tokens,
/// followed by tokens that do not go on with `=`, reading a `where`
/// condition from their start reads the condition and ends at their end.
pub proof fn lemma_where_reads_back(
    tokens: Seq<SpecToken>,
    at: int,
    qual: Option<SpecExpr>,
    rest: Seq<SpecToken>,
)
    requires
        qual matches Some(e) ==> spec_is_condition(e),
        0 <= at,
        at + spec_where_tokens(qual).len() + rest.len() == tokens.len(),
        tokens.subrange(at, tokens.len() as int) == spec_where_tokens(qual) + rest,
        rest.len() > 0 ==> !(rest[0] is Equals) && !(rest[0] is Where),
    ensures
        spec_where(tokens, at) == Some((qual, at + spec_where_tokens(qual).len())),
{
    let filter = spec_where_tokens(qual);
    let tail = tokens.subrange(at, tokens.len() as int);
    match qual {
        Some(e) => {
            let written = spec_expr_tokens(e);
            assert(filter == seq![SpecToken::Where] + written);
            assert(tokens[at] == tail[0]);
            assert(tokens.subrange(at + 1, at + 1 + written.len()) =~= written) by {
                assert forall|k: int| 0 <= k < written.len() implies tokens.subrange(
                    at + 1,
                    at + 1 + written.len(),
                )[k] == written[k] by {
                    assert(tail[k + 1] == (filter + rest)[k + 1]);
                }
            }
            lemma_expr_reads_back(tokens, at + 1, e);
            let end: int = at + 1 + written.len() as int;
            if end < tokens.len() {
                assert(tokens[end] == tail[1 + written.len() as int]);
                assert(tail[1 + written.len() as int] == rest[0]);
            }
            assert(spec_expr_rest(tokens, end, e) == (e, end));
        },
        None => {
            if at < tokens.len() {
                assert(tokens[at] == tail[0]);
                assert(tail[0] == rest[0]);
            }
        },
    }
}

fn parse_term(token: &Token) -> (r: Option<Expr>)
    ensures
        match spec_term(token@) {
            Some(e) => r matches Some(x) && x@ == e,
            None => r is None,
        },
{
    match token {
        Token::True => Some(Expr::Bool(true)),
        Token::False => Some(Expr::Bool(false)),
        Token::Number(text) => {
            let chars = to_chars(text.as_str());
            match parse_i32(&chars) {
                Some(n) => Some(Expr::Number(n)),
                None => None,
            }
        },
        Token::Ident(name) => Some(Expr::ColumnRef(name.clone())),
        _ => None,
    }
}

fn parse_expr(tokens: &Vec<Token>, i: usize) -> (r: Option<(Expr, usize)>)
    ensures
        match spec_expr(spec_token_views(tokens@), i as int) {
            Some((e, j)) => r matches Some((x, k)) && x@ == e && k == j && i < k <= tokens@.len(),
            None => r is None,
        },
{
    let ghost toks = spec_token_views(tokens@);
    if i >= tokens.len() {
        return None;
    }
    assert(toks[i as int] == tokens@[i as int]@);
    let mut left = match parse_term(&tokens[i]) {
        Some(e) => e,
        None => {
            return None;
        },
    };
    let mut at: usize = i + 1;
    loop
        invariant
            i < at <= tokens@.len(),
            toks == spec_token_views(tokens@),
            spec_expr(toks, i as int) == Some(spec_expr_rest(toks, at as int, left@)),
        decreases tokens@.len() - at,
    {
        if at < tokens.len() && at + 1 < tokens.len() {
            assert(toks[at as int] == tokens@[at as int]@);
            assert(toks[at + 1] == tokens@[at + 1]@);
            let is_equals = match &tokens[at] {
                Token::Equals => true,
                _ => false,
            };
            if is_equals {
                match parse_term(&tokens[at + 1]) {
                    Some(right) => {
                        left = Expr::OpEq(Box::new(left), Box::new(right));
                        at = at + 2;
                    },
                    None => {
                        return Some((left, at));
                    },
                }
            } else {
                return Some((left, at));
            }
        } else {
            return Some((left, at));
        }
    }
}

fn parse_table(tokens: &Vec<Token>, i: usize) -> (r: Option<(String, String)>)
    ensures
        match spec_table(spec_token_views(tokens@), i as int) {
            Some((db, table)) => r matches Some((d, t)) && d@ == db && t@ == table,
            None => r is None,
        },
{
    let ghost toks = spec_token_views(tokens@);
    if i >= tokens.len() || tokens.len() - i < 3 {
        return None;
    }
    assert(toks[i as int] == tokens@[i as int]@);
    assert(toks[i + 1] == tokens@[i + 1]@);
    assert(toks[i + 2] == tokens@[i + 2]@);
    match (&tokens[i], &tokens[i + 1], &tokens[i + 2]) {
        (Token::Ident(db), Token::Dot, Token::Ident(table)) => Some((db.clone(), table.clone())),
        _ => None,
    }
}

fn parse_where(tokens: &Vec<Token>, i: usize) -> (r: Option<(Option<Box<Expr>>, usize)>)
    requires
        i <= tokens@.len(),
    ensures
        match spec_where(spec_token_views(tokens@), i as int) {
            Some((qual, j)) => r matches Some((q, k)) && spec_option_view(q) == qual && k == j && i
                <= k <= tokens@.len(),
            None => r is None,
        },
{
    let ghost toks = spec_token_views(tokens@);
    if i < tokens.len() {
        assert(toks[i as int] == tokens@[i as int]@);
        let is_where = match &tokens[i] {
            Token::Where => true,
            _ => false,
        };
        if is_where {
            return match parse_expr(tokens, i + 1) {
                Some((e, j)) => Some((Some(Box::new(e)), j)),
                None => None,
            };
        }
    }
    Some((None, i))
}

fn parse_order(tokens: &Vec<Token>, i: usize) -> (r: Option<(Option<String>, usize)>)
    requires
        i <= tokens@.len(),
    ensures
        match spec_order(spec_token_views(tokens@), i as int) {
            Some((sort, j)) => r matches Some((s, k)) && k == j && i <= k <= tokens@.len() && (
            match s {
                Some(column) => sort == Some(column@),
                None => sort is None,
            }),
            None => r is None,
        },
{
    let ghost toks = spec_token_views(tokens@);
    if i < tokens.len() {
        assert(toks[i as int] == tokens@[i as int]@);
        let is_order = match &tokens[i] {
            Token::Order => true,
            _ => false,
        };
        if is_order {
            if tokens.len() - i < 3 {
                return None;
            }
            assert(toks[i + 1] == tokens@[i + 1]@);
            assert(toks[i + 2] == tokens@[i + 2]@);
            return match (&tokens[i + 1], &tokens[i + 2]) {
                (Token::By, Token::Ident(column)) => Some((Some(column.clone()), i + 3)),
                _ => None,
            };
        }
    }
    Some((None, i))
}

fn parse_select(tokens: &Vec<Token>) -> (r: Option<Stmt>)
    ensures
        match spec_select(spec_token_views(tokens@)) {
            Some(stmt) => r matches Some(s) && s@ == stmt,
            None => r is None,
        },
{
    let ghost toks = spec_token_views(tokens@);
    if tokens.len() < 3 {
        return None;
    }
    assert(toks[0] == tokens@[0]@ && toks[1] == tokens@[1]@ && toks[2] == tokens@[2]@);
    let what = match (&tokens[0], &tokens[1], &tokens[2]) {
        (Token::Select, Token::Star, Token::From) => Expr::All,
        (Token::Select, Token::Count, Token::From) => Expr::Count,
        _ => {
            return None;
        },
    };
    let (db, table) = match parse_table(tokens, 3) {
        Some(found) => found,
        None => {
            return None;
        },
    };
    let (qual, j) = match parse_where(tokens, 6) {
        Some(found) => found,
        None => {
            return None;
        },
    };
    let (sort, k) = match parse_order(tokens, j) {
        Some(found) => found,
        None => {
            return None;
        },
    };
    if k != tokens.len() {
        return None;
    }
    Some(Stmt::SelectStmt(Box::new(what), db, table, qual, sort))
}

fn parse_delete(tokens: &Vec<Token>) -> (r: Option<Stmt>)
    ensures
        match spec_delete(spec_token_views(tokens@)) {
            Some(stmt) => r matches Some(s) && s@ == stmt,
            None => r is None,
        },
{
    let ghost toks = spec_token_views(tokens@);
    if tokens.len() < 2 {
        return None;
    }
    assert(toks[0] == tokens@[0]@ && toks[1] == tokens@[1]@);
    match (&tokens[0], &tokens[1]) {
        (Token::Delete, Token::From) => {},
        _ => {
            return None;
        },
    }
    let (db, table) = match parse_table(tokens, 2) {
        Some(found) => found,
        None => {
            return None;
        },
    };
    let (qual, j) = match parse_where(tokens, 5) {
        Some(found) => found,
        None => {
            return None;
        },
    };
    if j != tokens.len() {
        return None;
    }
    Some(Stmt::DeleteStmt(db, table, qual))
}

fn parse_names(tokens: &Vec<Token>, from: usize) -> (r: Option<(Vec<String>, usize)>)
    ensures
        match spec_names_from(spec_token_views(tokens@), from as int, Seq::<Seq<char>>::empty()) {
            Some((names, j)) => r matches Some((v, k)) && crate::ast::spec_strings(v@) == names
                && k == j && k <= tokens@.len(),
            None => r is None,
        },
{
    let ghost toks = spec_token_views(tokens@);
    let mut names: Vec<String> = Vec::new();
    let mut i = from;
    assert(crate::ast::spec_strings(names@) =~= Seq::<Seq<char>>::empty());
    loop
        invariant
            toks == spec_token_views(tokens@),
            from <= i,
            spec_names_from(toks, from as int, Seq::<Seq<char>>::empty()) == spec_names_from(
                toks,
                i as int,
                crate::ast::spec_strings(names@),
            ),
        decreases tokens@.len() - i,
    {
        if i >= tokens.len() || tokens.len() - i < 2 {
            return None;
        }
        assert(toks[i as int] == tokens@[i as int]@);
        assert(toks[i + 1] == tokens@[i + 1]@);
        let ghost before = crate::ast::spec_strings(names@);
        match &tokens[i] {
            Token::Ident(name) => {
                names.push(name.clone());
                assert(crate::ast::spec_strings(names@) =~= before.push(name@));
            },
            _ => {
                return None;
            },
        }
        match &tokens[i + 1] {
            Token::RParen => {
                return Some((names, i + 2));
            },
            Token::Comma => {
                i = i + 2;
            },
            _ => {
                return None;
            },
        }
    }
}

fn parse_row(tokens: &Vec<Token>, from: usize) -> (r: Option<(Vec<String>, usize)>)
    ensures
        match spec_row(spec_token_views(tokens@), from as int) {
            Some((values, j)) => r matches Some((v, k)) && crate::ast::spec_strings(v@) == values
                && k == j && from < k <= tokens@.len(),
            None => r is None,
        },
{
    let ghost toks = spec_token_views(tokens@);
    if from >= tokens.len() {
        return None;
    }
    assert(toks[from as int] == tokens@[from as int]@);
    match &tokens[from] {
        Token::LParen => {},
        _ => {
            return None;
        },
    }
    proof {
        lemma_lits_advance(toks, from + 1, Seq::<Seq<char>>::empty());
    }
    let mut values: Vec<String> = Vec::new();
    let mut i = from + 1;
    assert(crate::ast::spec_strings(values@) =~= Seq::<Seq<char>>::empty());
    loop
        invariant
            toks == spec_token_views(tokens@),
            from < i,
            spec_row(toks, from as int) == spec_lits_from(
                toks,
                i as int,
                crate::ast::spec_strings(values@),
            ),
            spec_row(toks, from as int) matches Some((_, j)) ==> from < j <= tokens@.len(),
        decreases tokens@.len() - i,
    {
        if i >= tokens.len() || tokens.len() - i < 2 {
            return None;
        }
        assert(toks[i as int] == tokens@[i as int]@);
        assert(toks[i + 1] == tokens@[i + 1]@);
        let ghost before = crate::ast::spec_strings(values@);
        match &tokens[i] {
            Token::Number(text) => {
                values.push(text.clone());
                assert(crate::ast::spec_strings(values@) =~= before.push(text@));
            },
            Token::Text(text) => {
                values.push(text.clone());
                assert(crate::ast::spec_strings(values@) =~= before.push(text@));
            },
            _ => {
                return None;
            },
        }
        match &tokens[i + 1] {
            Token::RParen => {
                return Some((values, i + 2));
            },
            Token::Comma => {
                i = i + 2;
            },
            _ => {
                return None;
            },
        }
    }
}

fn parse_rows(tokens: &Vec<Token>, from: usize) -> (r: Option<Vec<Vec<String>>>)
    ensures
        match spec_rows_from(
            spec_token_views(tokens@),
            from as int,
            Seq::<Seq<Seq<char>>>::empty(),
        ) {
            Some(rows) => r matches Some(v) && crate::ast::spec_string_rows(v@) == rows,
            None => r is None,
        },
{
    let ghost toks = spec_token_views(tokens@);
    let mut rows: Vec<Vec<String>> = Vec::new();
    let mut i = from;
    assert(crate::ast::spec_string_rows(rows@) =~= Seq::<Seq<Seq<char>>>::empty());
    loop
        invariant
            toks == spec_token_views(tokens@),
            from <= i,
            spec_rows_from(toks, from as int, Seq::<Seq<Seq<char>>>::empty()) == spec_rows_from(
                toks,
                i as int,
                crate::ast::spec_string_rows(rows@),
            ),
        decreases tokens@.len() - i,
    {
        let ghost before = crate::ast::spec_string_rows(rows@);
        let (row, j) = match parse_row(tokens, i) {
            Some(found) => found,
            None => {
                return None;
            },
        };
        let ghost row_view = crate::ast::spec_strings(row@);
        rows.push(row);
        assert(crate::ast::spec_string_rows(rows@) =~= before.push(row_view));
        if j == tokens.len() {
            return Some(rows);
        }
        assert(toks[j as int] == tokens@[j as int]@);
        match &tokens[j] {
            Token::Comma => {
                i = j + 1;
            },
            _ => {
                return None;
            },
        }
    }
}

fn parse_insert(tokens: &Vec<Token>) -> (r: Option<Stmt>)
    ensures
        match spec_insert(spec_token_views(tokens@)) {
            Some(stmt) => r matches Some(s) && s@ == stmt,
            None => r is None,
        },
{
    let ghost toks = spec_token_views(tokens@);
    if tokens.len() < 6 {
        return None;
    }
    assert(toks[0] == tokens@[0]@ && toks[1] == tokens@[1]@ && toks[5] == tokens@[5]@);
    match (&tokens[0], &tokens[1], &tokens[5]) {
        (Token::Insert, Token::Into, Token::LParen) => {},
        _ => {
            return None;
        },
    }
    let (db, table) = match parse_table(tokens, 2) {
        Some(found) => found,
        None => {
            return None;
        },
    };
    let (names, j) = match parse_names(tokens, 6) {
        Some(found) => found,
        None => {
            return None;
        },
    };
    if j >= tokens.len() {
        return None;
    }
    assert(toks[j as int] == tokens@[j as int]@);
    match &tokens[j] {
        Token::Values => {},
        _ => {
            return None;
        },
    }
    let rows = match parse_rows(tokens, j + 1) {
        Some(found) => found,
        None => {
            return None;
        },
    };
    Some(Stmt::InsertStmt(db, table, names, rows))
}

/// Reads statements.
pub struct StatementParser {}

impl StatementParser {
    pub fn new() -> (parser: StatementParser) {
        StatementParser {  }
    }

    /// The statement that a text is; for a text that is none, the message
    /// that says so.
    pub fn parse(&self, query: &str) -> (r: Result<Stmt, String>)
        ensures
            match spec_parse(query@) {
                Some(stmt) => r matches Ok(s) && s@ == stmt,
                None => r matches Err(m) && m@ == spec_syntax_message(),
            },
    {
        let chars = to_chars(query);
        let tokens = match tokenize(&chars) {
            Some(tokens) => tokens,
            None => {
                return Err(String::from_str("Invalid syntax"));
            },
        };
        if tokens.len() == 0 {
            return Err(String::from_str("Invalid syntax"));
        }
        assert(spec_token_views(tokens@)[0] == tokens@[0]@);
        let stmt = match &tokens[0] {
            Token::Select => parse_select(&tokens),
            Token::Insert => parse_insert(&tokens),
            Token::Delete => parse_delete(&tokens),
            _ => None,
        };
        match stmt {
            Some(s) => Ok(s),
            None => Err(String::from_str("Invalid syntax")),
        }
    }
}

} // verus!
