use vstd::prelude::*;
use vstd::string::StrSliceExecFns;
use vstd::string::StringExecFns;

use crate::errors::SyntaxError;

verus! {

/// One lexical unit of the source language.  `Space` is kept by the
/// tokenizer and filtered out before parsing begins.
#[derive(Debug, PartialEq)]
pub enum Token {
    OpenBracket,
    CloseBracket,
    Name(String),
    Range,
    Var,
    Number(String),
    SetKw,
    Bool(bool),
    If,
    For,
    Plus,
    Minus,
    Multiply,
    Divide,
    Eq,
    Bigger,
    Less,
    BinaryOr,
    BinaryAnd,
    BinaryNeg,
    Space,
}

/// The mathematical value of a `Token`: the same tags, with text carried
/// as a sequence of characters.
pub enum TokenModel {
    OpenBracket,
    CloseBracket,
    Name(Seq<char>),
    Range,
    Var,
    Number(Seq<char>),
    SetKw,
    Bool(bool),
    If,
    For,
    Plus,
    Minus,
    Multiply,
    Divide,
    Eq,
    Bigger,
    Less,
    BinaryOr,
    BinaryAnd,
    BinaryNeg,
    Space,
}

impl View for Token {
    type V = TokenModel;

    open spec fn view(&self) -> TokenModel {
        match self {
            Token::OpenBracket => TokenModel::OpenBracket,
            Token::CloseBracket => TokenModel::CloseBracket,
            Token::Name(s) => TokenModel::Name(s@),
            Token::Range => TokenModel::Range,
            Token::Var => TokenModel::Var,
            Token::Number(s) => TokenModel::Number(s@),
            Token::SetKw => TokenModel::SetKw,
            Token::Bool(b) => TokenModel::Bool(*b),
            Token::If => TokenModel::If,
            Token::For => TokenModel::For,
            Token::Plus => TokenModel::Plus,
            Token::Minus => TokenModel::Minus,
            Token::Multiply => TokenModel::Multiply,
            Token::Divide => TokenModel::Divide,
            Token::Eq => TokenModel::Eq,
            Token::Bigger => TokenModel::Bigger,
            Token::Less => TokenModel::Less,
            Token::BinaryOr => TokenModel::BinaryOr,
            Token::BinaryAnd => TokenModel::BinaryAnd,
            Token::BinaryNeg => TokenModel::BinaryNeg,
            Token::Space => TokenModel::Space,
        }
    }
}

pub open spec fn view_tokens(ts: Seq<Token>) -> Seq<TokenModel> {
    ts.map_values(|t: Token| t@)
}

impl Clone for Token {
    /// A clone carries the same tag and the same text.
    fn clone(&self) -> (r: Self)
        ensures
            r@ == self@,
    {
        match self {
            Token::OpenBracket => Token::OpenBracket,
            Token::CloseBracket => Token::CloseBracket,
            Token::Name(s) => Token::Name(s.clone()),
            Token::Range => Token::Range,
            Token::Var => Token::Var,
            Token::Number(s) => Token::Number(s.clone()),
            Token::SetKw => Token::SetKw,
            Token::Bool(b) => Token::Bool(*b),
            Token::If => Token::If,
            Token::For => Token::For,
            Token::Plus => Token::Plus,
            Token::Minus => Token::Minus,
            Token::Multiply => Token::Multiply,
            Token::Divide => Token::Divide,
            Token::Eq => Token::Eq,
            Token::Bigger => Token::Bigger,
            Token::Less => Token::Less,
            Token::BinaryOr => Token::BinaryOr,
            Token::BinaryAnd => Token::BinaryAnd,
            Token::BinaryNeg => Token::BinaryNeg,
            Token::Space => Token::Space,
        }
    }
}

// ---------------------------------------------------------------------------
// Character classes
// ---------------------------------------------------------------------------

pub open spec fn is_space_char(c: char) -> bool {
    c == ' ' || c == '\n' || c == '\t'
}

pub open spec fn is_digit_char(c: char) -> bool {
    '0' <= c && c <= '9'
}

/// A character that may occur in an identifier: ASCII letters, digits and
/// the underscore.
pub open spec fn is_word_char(c: char) -> bool {
    ('a' <= c && c <= 'z') || ('A' <= c && c <= 'Z') || is_digit_char(c) || c == '_'
}

pub open spec fn is_sign_char(c: char) -> bool {
    c == '+' || c == '-'
}

/// A keyword ends here: end of input or a character that cannot continue an
/// identifier.  This keeps `variable` from being read as `var` + `iable`.
pub open spec fn word_boundary(s: Seq<char>, i: int) -> bool {
    i >= s.len() || !is_word_char(s[i])
}

/// Two equal characters `c` stand at `i`, as in `&&`, `||`, `==`.
pub open spec fn pair_at(s: Seq<char>, i: int, c: char) -> bool {
    i + 2 <= s.len() && s[i] == c && s[i + 1] == c
}

// ---------------------------------------------------------------------------
// Keyword and literal matchers
// ---------------------------------------------------------------------------

pub open spec fn if_kw_at(s: Seq<char>, i: int) -> bool {
    i + 2 <= s.len() && s[i] == 'i' && s[i + 1] == 'f' && word_boundary(s, i + 2)
}

pub open spec fn var_kw_at(s: Seq<char>, i: int) -> bool {
    i + 3 <= s.len() && s[i] == 'v' && s[i + 1] == 'a' && s[i + 2] == 'r' && word_boundary(s, i + 3)
}

pub open spec fn set_kw_at(s: Seq<char>, i: int) -> bool {
    i + 3 <= s.len() && s[i] == 's' && s[i + 1] == 'e' && s[i + 2] == 't' && word_boundary(s, i + 3)
}

pub open spec fn range_kw_at(s: Seq<char>, i: int) -> bool {
    i + 5 <= s.len() && s[i] == 'r' && s[i + 1] == 'a' && s[i + 2] == 'n' && s[i + 3] == 'g'
        && s[i + 4] == 'e' && word_boundary(s, i + 5)
}

pub open spec fn for_kw_at(s: Seq<char>, i: int) -> bool {
    i + 3 <= s.len() && s[i] == 'f' && s[i + 1] == 'o' && s[i + 2] == 'r' && word_boundary(s, i + 3)
}

/// A boolean literal ends only at a closing bracket, whitespace, `&&` or
/// `||`; anywhere else the text is an identifier that merely begins with
/// `true`/`false`.
pub open spec fn bool_boundary(s: Seq<char>, i: int) -> bool {
    i < s.len() && (s[i] == ')' || is_space_char(s[i]) || pair_at(s, i, '&') || pair_at(s, i, '|'))
}

pub open spec fn true_lit_at(s: Seq<char>, i: int) -> bool {
    i + 4 <= s.len() && s[i] == 't' && s[i + 1] == 'r' && s[i + 2] == 'u' && s[i + 3] == 'e'
        && bool_boundary(s, i + 4)
}

pub open spec fn false_lit_at(s: Seq<char>, i: int) -> bool {
    i + 5 <= s.len() && s[i] == 'f' && s[i + 1] == 'a' && s[i + 2] == 'l' && s[i + 3] == 's'
        && s[i + 4] == 'e' && bool_boundary(s, i + 5)
}

// ---------------------------------------------------------------------------
// Runs of characters, and the shape of a numeric literal
// ---------------------------------------------------------------------------

/// Length of the maximal run of decimal digits starting at `i`.
pub open spec fn digit_run_len(s: Seq<char>, i: int) -> int
    decreases s.len() - i when 0 <= i <= s.len()
{
    if i < s.len() && is_digit_char(s[i]) {
        1 + digit_run_len(s, i + 1)
    } else {
        0
    }
}

/// Length of the maximal run of word characters starting at `i`.
pub open spec fn word_run_len(s: Seq<char>, i: int) -> int
    decreases s.len() - i when 0 <= i <= s.len()
{
    if i < s.len() && is_word_char(s[i]) {
        1 + word_run_len(s, i + 1)
    } else {
        0
    }
}

/// A numeric literal is an optional sign, one or more digits, an optional
/// fractional part and an optional exponent; the longest such match is
/// consumed.
pub open spec fn sign_len_at(s: Seq<char>, i: int) -> int {
    if i < s.len() && is_sign_char(s[i]) {
        1
    } else {
        0
    }
}

pub open spec fn int_part_len(s: Seq<char>, i: int) -> int {
    digit_run_len(s, i + sign_len_at(s, i))
}

pub open spec fn number_matches_at(s: Seq<char>, i: int) -> bool {
    int_part_len(s, i) > 0
}

/// Length of `.digits` starting at `j`, or 0 when no fractional part starts
/// there.
pub open spec fn frac_part_len(s: Seq<char>, j: int) -> int {
    if j < s.len() && s[j] == '.' && j + 1 < s.len() && is_digit_char(s[j + 1]) {
        1 + digit_run_len(s, j + 1)
    } else {
        0
    }
}

/// Length of `e`/`E`, an optional sign and one or more digits starting at
/// `k`, or 0 when no exponent starts there.
pub open spec fn exp_part_len(s: Seq<char>, k: int) -> int {
    if k < s.len() && (s[k] == 'e' || s[k] == 'E') {
        let es = if k + 1 < s.len() && is_sign_char(s[k + 1]) {
            1int
        } else {
            0int
        };
        let ed = digit_run_len(s, k + 1 + es);
        if ed > 0 {
            1 + es + ed
        } else {
            0
        }
    } else {
        0
    }
}

pub open spec fn number_len_at(s: Seq<char>, i: int) -> int {
    let a = i + sign_len_at(s, i) + int_part_len(s, i);
    let b = a + frac_part_len(s, a);
    b + exp_part_len(s, b) - i
}

pub open spec fn name_matches_at(s: Seq<char>, i: int) -> bool {
    i < s.len() && is_word_char(s[i])
}

pub open spec fn name_len_at(s: Seq<char>, i: int) -> int {
    word_run_len(s, i)
}

// ---------------------------------------------------------------------------
// The tokenizer itself, at the specification level
// ---------------------------------------------------------------------------

/// The token that starts at position `i`, with the count of characters it
/// consumes, or `None` when no pattern matches there.  The patterns are
/// tried in a fixed order; the order is the disambiguation rule.
pub open spec fn spec_token_at(s: Seq<char>, i: int) -> Option<(TokenModel, int)> {
    if s[i] == '(' {
        Some((TokenModel::OpenBracket, 1))
    } else if s[i] == ')' {
        Some((TokenModel::CloseBracket, 1))
    } else if is_space_char(s[i]) {
        Some((TokenModel::Space, 1))
    } else if if_kw_at(s, i) {
        Some((TokenModel::If, 2))
    } else if var_kw_at(s, i) {
        Some((TokenModel::Var, 3))
    } else if set_kw_at(s, i) {
        Some((TokenModel::SetKw, 3))
    } else if range_kw_at(s, i) {
        Some((TokenModel::Range, 5))
    } else if for_kw_at(s, i) {
        Some((TokenModel::For, 3))
    } else if number_matches_at(s, i) {
        Some((TokenModel::Number(s.subrange(i, i + number_len_at(s, i))), number_len_at(s, i)))
    } else if true_lit_at(s, i) {
        Some((TokenModel::Bool(true), 4))
    } else if false_lit_at(s, i) {
        Some((TokenModel::Bool(false), 5))
    } else if pair_at(s, i, '&') {
        Some((TokenModel::BinaryAnd, 2))
    } else if pair_at(s, i, '|') {
        Some((TokenModel::BinaryOr, 2))
    } else if pair_at(s, i, '=') {
        Some((TokenModel::Eq, 2))
    } else if s[i] == '+' {
        Some((TokenModel::Plus, 1))
    } else if s[i] == '-' {
        Some((TokenModel::Minus, 1))
    } else if s[i] == '*' {
        Some((TokenModel::Multiply, 1))
    } else if s[i] == '/' {
        Some((TokenModel::Divide, 1))
    } else if s[i] == '!' {
        Some((TokenModel::BinaryNeg, 1))
    } else if s[i] == '>' {
        Some((TokenModel::Bigger, 1))
    } else if s[i] == '<' {
        Some((TokenModel::Less, 1))
    } else if name_matches_at(s, i) {
        Some((TokenModel::Name(s.subrange(i, i + name_len_at(s, i))), name_len_at(s, i)))
    } else {
        None
    }
}

/// Tokenization of the suffix of `s` that starts at `i`: the token at `i`
/// followed by the tokenization of what remains.  The bounds placed on the
/// step are never exercised (see `lemma_token_at_bounds`); they only make
/// termination evident.
pub open spec fn spec_tokenize_from(s: Seq<char>, i: int) -> Result<Seq<TokenModel>, SyntaxError>
    decreases s.len() - i when 0 <= i <= s.len()
{
    if i >= s.len() {
        Ok(Seq::empty())
    } else {
        match spec_token_at(s, i) {
            None => Err(SyntaxError::UnrecognizedCharacter),
            Some((t, n)) => {
                let step = if n < 1 {
                    1int
                } else {
                    n
                };
                let j = if i + step > s.len() {
                    s.len() as int
                } else {
                    i + step
                };
                match spec_tokenize_from(s, j) {
                    Ok(rest) => Ok(seq![t] + rest),
                    Err(e) => Err(e),
                }
            },
        }
    }
}

// ---------------------------------------------------------------------------
// The executable tokenizer
// ---------------------------------------------------------------------------

fn is_space(c: char) -> (r: bool)
    ensures
        r == is_space_char(c),
{
    c == ' ' || c == '\n' || c == '\t'
}

fn is_digit(c: char) -> (r: bool)
    ensures
        r == is_digit_char(c),
{
    '0' <= c && c <= '9'
}

fn is_word(c: char) -> (r: bool)
    ensures
        r == is_word_char(c),
{
    ('a' <= c && c <= 'z') || ('A' <= c && c <= 'Z') || ('0' <= c && c <= '9') || c == '_'
}

fn is_sign(c: char) -> (r: bool)
    ensures
        r == is_sign_char(c),
{
    c == '+' || c == '-'
}

fn is_word_boundary(s: &str, i: usize) -> (r: bool)
    requires
        i <= s@.len(),
    ensures
        r == word_boundary(s@, i as int),
{
    i >= s.unicode_len() || !is_word(s.get_char(i))
}

fn pair_matches(s: &str, i: usize, c: char) -> (r: bool)
    requires
        i <= s@.len(),
    ensures
        r == pair_at(s@, i as int, c),
{
    let n = s.unicode_len();
    n - i >= 2 && s.get_char(i) == c && s.get_char(i + 1) == c
}

fn if_matches(s: &str, i: usize) -> (r: bool)
    requires
        i < s@.len(),
    ensures
        r == if_kw_at(s@, i as int),
{
    let n = s.unicode_len();
    n - i >= 2 && s.get_char(i) == 'i' && s.get_char(i + 1) == 'f' && is_word_boundary(s, i + 2)
}

fn var_matches(s: &str, i: usize) -> (r: bool)
    requires
        i < s@.len(),
    ensures
        r == var_kw_at(s@, i as int),
{
    let n = s.unicode_len();
    n - i >= 3 && s.get_char(i) == 'v' && s.get_char(i + 1) == 'a' && s.get_char(i + 2) == 'r'
        && is_word_boundary(s, i + 3)
}

fn set_matches(s: &str, i: usize) -> (r: bool)
    requires
        i < s@.len(),
    ensures
        r == set_kw_at(s@, i as int),
{
    let n = s.unicode_len();
    n - i >= 3 && s.get_char(i) == 's' && s.get_char(i + 1) == 'e' && s.get_char(i + 2) == 't'
        && is_word_boundary(s, i + 3)
}

fn range_matches(s: &str, i: usize) -> (r: bool)
    requires
        i < s@.len(),
    ensures
        r == range_kw_at(s@, i as int),
{
    let n = s.unicode_len();
    n - i >= 5 && s.get_char(i) == 'r' && s.get_char(i + 1) == 'a' && s.get_char(i + 2) == 'n'
        && s.get_char(i + 3) == 'g' && s.get_char(i + 4) == 'e' && is_word_boundary(s, i + 5)
}

fn for_matches(s: &str, i: usize) -> (r: bool)
    requires
        i < s@.len(),
    ensures
        r == for_kw_at(s@, i as int),
{
    let n = s.unicode_len();
    n - i >= 3 && s.get_char(i) == 'f' && s.get_char(i + 1) == 'o' && s.get_char(i + 2) == 'r'
        && is_word_boundary(s, i + 3)
}

fn is_bool_boundary(s: &str, i: usize) -> (r: bool)
    requires
        i <= s@.len(),
    ensures
        r == bool_boundary(s@, i as int),
{
    if i >= s.unicode_len() {
        false
    } else {
        let c = s.get_char(i);
        c == ')' || is_space(c) || pair_matches(s, i, '&') || pair_matches(s, i, '|')
    }
}

fn true_matches(s: &str, i: usize) -> (r: bool)
    requires
        i < s@.len(),
    ensures
        r == true_lit_at(s@, i as int),
{
    let n = s.unicode_len();
    n - i >= 4 && s.get_char(i) == 't' && s.get_char(i + 1) == 'r' && s.get_char(i + 2) == 'u'
        && s.get_char(i + 3) == 'e' && is_bool_boundary(s, i + 4)
}

fn false_matches(s: &str, i: usize) -> (r: bool)
    requires
        i < s@.len(),
    ensures
        r == false_lit_at(s@, i as int),
{
    let n = s.unicode_len();
    n - i >= 5 && s.get_char(i) == 'f' && s.get_char(i + 1) == 'a' && s.get_char(i + 2) == 'l'
        && s.get_char(i + 3) == 's' && s.get_char(i + 4) == 'e' && is_bool_boundary(s, i + 5)
}

/// Position just past the run of decimal digits that starts at `i`.
fn digit_run_end(s: &str, i: usize) -> (j: usize)
    requires
        i <= s@.len(),
    ensures
        j == i + digit_run_len(s@, i as int),
    decreases s@.len() - i,
{
    let n = s.unicode_len();
    if i < n && is_digit(s.get_char(i)) {
        digit_run_end(s, i + 1)
    } else {
        i
    }
}

/// Position just past the run of word characters that starts at `i`.
fn word_run_end(s: &str, i: usize) -> (j: usize)
    requires
        i <= s@.len(),
    ensures
        j == i + word_run_len(s@, i as int),
    decreases s@.len() - i,
{
    let n = s.unicode_len();
    if i < n && is_word(s.get_char(i)) {
        word_run_end(s, i + 1)
    } else {
        i
    }
}

fn number_matches(s: &str, i: usize) -> (r: bool)
    requires
        i < s@.len(),
    ensures
        r == number_matches_at(s@, i as int),
{
    let n = s.unicode_len();
    let mut p = i;
    if is_sign(s.get_char(p)) {
        p = p + 1;
    }
    let e = digit_run_end(s, p);
    proof {
        lemma_digit_run_len_bounds(s@, p as int);
    }
    e > p
}

fn name_matches(s: &str, i: usize) -> (r: bool)
    requires
        i < s@.len(),
    ensures
        r == name_matches_at(s@, i as int),
{
    is_word(s.get_char(i))
}

/// Position just past the numeric literal that starts at `i`.
fn number_end(s: &str, i: usize) -> (e: usize)
    requires
        i < s@.len(),
        number_matches_at(s@, i as int),
    ensures
        e == i + number_len_at(s@, i as int),
{
    let n = s.unicode_len();
    let mut p = i;
    if is_sign(s.get_char(p)) {
        p = p + 1;
    }
    let a = digit_run_end(s, p);
    proof {
        lemma_digit_run_len_bounds(s@, p as int);
    }
    let mut q = a;
    if q < n && s.get_char(q) == '.' && q + 1 < n && is_digit(s.get_char(q + 1)) {
        q = digit_run_end(s, q + 1);
        proof {
            lemma_digit_run_len_bounds(s@, a as int + 1);
        }
    }
    assert(q == a + frac_part_len(s@, a as int));
    if q < n && (s.get_char(q) == 'e' || s.get_char(q) == 'E') {
        let es: usize = if q + 1 < n && is_sign(s.get_char(q + 1)) {
            1
        } else {
            0
        };
        let ed_end = digit_run_end(s, q + 1 + es);
        proof {
            lemma_digit_run_len_bounds(s@, q as int + 1 + es as int);
        }
        if ed_end > q + 1 + es {
            return ed_end;
        }
    }
    q
}

/// Reads the token that starts at `cursor` and returns it with the position
/// just past it.  The patterns are tried in the same fixed order as in
/// `spec_token_at`.
fn extract_token(s: &str, cursor: usize) -> (r: Result<(Token, usize), SyntaxError>)
    requires
        cursor < s@.len(),
    ensures
        match r {
            Ok(p) => spec_token_at(s@, cursor as int) == Some((p.0@, p.1 - cursor))
                && cursor < p.1 <= s@.len(),
            Err(e) => spec_token_at(s@, cursor as int) is None && e
                == SyntaxError::UnrecognizedCharacter,
        },
{
    let n = s.unicode_len();
    let c = s.get_char(cursor);
    if c == '(' {
        Ok((Token::OpenBracket, cursor + 1))
    } else if c == ')' {
        Ok((Token::CloseBracket, cursor + 1))
    } else if is_space(c) {
        Ok((Token::Space, cursor + 1))
    } else if if_matches(s, cursor) {
        Ok((Token::If, cursor + 2))
    } else if var_matches(s, cursor) {
        Ok((Token::Var, cursor + 3))
    } else if set_matches(s, cursor) {
        Ok((Token::SetKw, cursor + 3))
    } else if range_matches(s, cursor) {
        Ok((Token::Range, cursor + 5))
    } else if for_matches(s, cursor) {
        Ok((Token::For, cursor + 3))
    } else if number_matches(s, cursor) {
        let end = number_end(s, cursor);
        proof {
            lemma_token_at_bounds(s@, cursor as int);
        }
        let text = String::from_str(s.substring_char(cursor, end));
        Ok((Token::Number(text), end))
    } else if true_matches(s, cursor) {
        Ok((Token::Bool(true), cursor + 4))
    } else if false_matches(s, cursor) {
        Ok((Token::Bool(false), cursor + 5))
    } else if pair_matches(s, cursor, '&') {
        Ok((Token::BinaryAnd, cursor + 2))
    } else if pair_matches(s, cursor, '|') {
        Ok((Token::BinaryOr, cursor + 2))
    } else if pair_matches(s, cursor, '=') {
        Ok((Token::Eq, cursor + 2))
    } else if c == '+' {
        Ok((Token::Plus, cursor + 1))
    } else if c == '-' {
        Ok((Token::Minus, cursor + 1))
    } else if c == '*' {
        Ok((Token::Multiply, cursor + 1))
    } else if c == '/' {
        Ok((Token::Divide, cursor + 1))
    } else if c == '!' {
        Ok((Token::BinaryNeg, cursor + 1))
    } else if c == '>' {
        Ok((Token::Bigger, cursor + 1))
    } else if c == '<' {
        Ok((Token::Less, cursor + 1))
    } else if name_matches(s, cursor) {
        let end = word_run_end(s, cursor);
        proof {
            lemma_token_at_bounds(s@, cursor as int);
        }
        let text = String::from_str(s.substring_char(cursor, end));
        Ok((Token::Name(text), end))
    } else {
        Err(SyntaxError::UnrecognizedCharacter)
    }
}

/// Combines the tokens already read with the outcome on the rest of the
/// input.
pub open spec fn tok_concat(
    done: Seq<TokenModel>,
    rest: Result<Seq<TokenModel>, SyntaxError>,
) -> Result<Seq<TokenModel>, SyntaxError> {
    match rest {
        Ok(r) => Ok(done + r),
        Err(e) => Err(e),
    }
}

/// Splits the program text into tokens, left to right, consuming at each
/// position the first pattern that matches.  Fails exactly when some
/// position starts no token.
pub fn parse(program: &str) -> (r: Result<Vec<Token>, SyntaxError>)
    ensures
        match r {
            Ok(tokens) => spec_tokenize_from(program@, 0) == Result::<
                Seq<TokenModel>,
                SyntaxError,
            >::Ok(view_tokens(tokens@)),
            Err(e) => spec_tokenize_from(program@, 0) == Result::<
                Seq<TokenModel>,
                SyntaxError,
            >::Err(e),
        },
{
    let n = program.unicode_len();
    let mut tokens: Vec<Token> = Vec::new();
    let mut cursor: usize = 0;
    proof {
        assert(view_tokens(tokens@) =~= Seq::<TokenModel>::empty());
    }
    while cursor < n
        invariant
            cursor <= n,
            n == program@.len(),
            spec_tokenize_from(program@, 0) == tok_concat(
                view_tokens(tokens@),
                spec_tokenize_from(program@, cursor as int),
            ),
        decreases n - cursor,
    {
        let ghost done = view_tokens(tokens@);
        match extract_token(program, cursor) {
            Err(e) => {
                return Err(e);
            },
            Ok((t, next)) => {
                proof {
                    let rest = spec_tokenize_from(program@, next as int);
                    if rest is Ok {
                        assert(done + (seq![t@] + rest->Ok_0) =~= done.push(t@) + rest->Ok_0);
                    }
                    assert(view_tokens(tokens@.push(t)) =~= done.push(t@));
                }
                tokens.push(t);
                cursor = next;
            },
        }
    }
    proof {
        assert(view_tokens(tokens@) + Seq::<TokenModel>::empty() =~= view_tokens(tokens@));
    }
    Ok(tokens)
}

// ---------------------------------------------------------------------------
// Lossless tokenization
// ---------------------------------------------------------------------------

/// The exact text that a token stands for.  A `Space` token stands for one
/// whitespace character whose identity the token does not retain, so it is
/// given no text here; `reconstructs` accounts for it separately.
pub open spec fn token_text(t: TokenModel) -> Seq<char> {
    match t {
        TokenModel::OpenBracket => seq!['('],
        TokenModel::CloseBracket => seq![')'],
        TokenModel::Name(x) => x,
        TokenModel::Range => seq!['r', 'a', 'n', 'g', 'e'],
        TokenModel::Var => seq!['v', 'a', 'r'],
        TokenModel::Number(x) => x,
        TokenModel::SetKw => seq!['s', 'e', 't'],
        TokenModel::Bool(b) => if b {
            seq!['t', 'r', 'u', 'e']
        } else {
            seq!['f', 'a', 'l', 's', 'e']
        },
        TokenModel::If => seq!['i', 'f'],
        TokenModel::For => seq!['f', 'o', 'r'],
        TokenModel::Plus => seq!['+'],
        TokenModel::Minus => seq!['-'],
        TokenModel::Multiply => seq!['*'],
        TokenModel::Divide => seq!['/'],
        TokenModel::Eq => seq!['=', '='],
        TokenModel::Bigger => seq!['>'],
        TokenModel::Less => seq!['<'],
        TokenModel::BinaryOr => seq!['|', '|'],
        TokenModel::BinaryAnd => seq!['&', '&'],
        TokenModel::BinaryNeg => seq!['!'],
        TokenModel::Space => Seq::empty(),
    }
}

/// The token sequence tiles the text exactly: each token's text is the next
/// piece of the input, each `Space` consumes exactly one whitespace
/// character, and nothing is left over.
pub open spec fn reconstructs(toks: Seq<TokenModel>, s: Seq<char>) -> bool
    decreases toks.len(),
{
    if toks.len() == 0 {
        s.len() == 0
    } else if toks[0] is Space {
        s.len() >= 1 && is_space_char(s[0]) && reconstructs(toks.skip(1), s.skip(1))
    } else {
        let txt = token_text(toks[0]);
        txt.len() <= s.len() && s.subrange(0, txt.len() as int) == txt && reconstructs(
            toks.skip(1),
            s.skip(txt.len() as int),
        )
    }
}

/// A token other than `Space` keeps exactly the characters it consumed.
proof fn lemma_token_text_at(s: Seq<char>, i: int)
    requires
        0 <= i < s.len(),
        spec_token_at(s, i) is Some,
        !(spec_token_at(s, i)->Some_0.0 is Space),
    ensures
        token_text(spec_token_at(s, i)->Some_0.0) =~= s.subrange(
            i,
            i + spec_token_at(s, i)->Some_0.1,
        ),
{
    lemma_token_at_bounds(s, i);
}

/// Lossless tokenization: a token sequence that the tokenizer accepts for
/// the text starting at `i` tiles that text exactly.
proof fn lemma_tokenize_lossless_from(s: Seq<char>, i: int, toks: Seq<TokenModel>)
    requires
        0 <= i <= s.len(),
        spec_tokenize_from(s, i) == Result::<Seq<TokenModel>, SyntaxError>::Ok(toks),
    ensures
        reconstructs(toks, s.skip(i)),
    decreases s.len() - i,
{
    if i >= s.len() {
        assert(toks =~= Seq::<TokenModel>::empty());
    } else {
        let (t, n) = spec_token_at(s, i)->Some_0;
        lemma_token_at_bounds(s, i);
        let rest = spec_tokenize_from(s, i + n)->Ok_0;
        lemma_tokenize_lossless_from(s, i + n, rest);
        assert(toks =~= seq![t] + rest);
        assert(toks.skip(1) =~= rest);
        if t is Space {
            assert(s.skip(i).skip(1) =~= s.skip(i + 1));
            assert(is_space_char(s.skip(i)[0]));
        } else {
            lemma_token_text_at(s, i);
            let txt = token_text(t);
            assert(txt.len() == n);
            assert(s.skip(i).subrange(0, n) =~= s.subrange(i, i + n));
            assert(s.skip(i).skip(n) =~= s.skip(i + n));
        }
    }
}

/// Concatenating the substrings consumed by each token, a whitespace
/// character for each `Space` among them, reconstructs the input exactly.
pub proof fn lemma_tokenize_lossless(s: Seq<char>, toks: Seq<TokenModel>)
    requires
        spec_tokenize_from(s, 0) == Result::<Seq<TokenModel>, SyntaxError>::Ok(toks),
    ensures
        reconstructs(toks, s),
{
    lemma_tokenize_lossless_from(s, 0, toks);
    assert(s.skip(0) =~= s);
}

pub proof fn lemma_digit_run_len_bounds(s: Seq<char>, i: int)
    requires
        0 <= i <= s.len(),
    ensures
        0 <= digit_run_len(s, i) <= s.len() - i,
    decreases s.len() - i,
{
    if i < s.len() && is_digit_char(s[i]) {
        lemma_digit_run_len_bounds(s, i + 1);
    }
}

pub proof fn lemma_word_run_len_bounds(s: Seq<char>, i: int)
    requires
        0 <= i <= s.len(),
    ensures
        0 <= word_run_len(s, i) <= s.len() - i,
    decreases s.len() - i,
{
    if i < s.len() && is_word_char(s[i]) {
        lemma_word_run_len_bounds(s, i + 1);
    }
}

/// A matched token consumes at least one character and never runs past the
/// end of the input.
pub proof fn lemma_token_at_bounds(s: Seq<char>, i: int)
    requires
        0 <= i < s.len(),
        spec_token_at(s, i) is Some,
    ensures
        1 <= spec_token_at(s, i)->Some_0.1,
        i + spec_token_at(s, i)->Some_0.1 <= s.len(),
{
    if number_matches_at(s, i) {
        let a = i + sign_len_at(s, i) + int_part_len(s, i);
        lemma_digit_run_len_bounds(s, i + sign_len_at(s, i));
        if a < s.len() && s[a] == '.' && a + 1 < s.len() && is_digit_char(s[a + 1]) {
            lemma_digit_run_len_bounds(s, a + 1);
        }
        let b = a + frac_part_len(s, a);
        if b < s.len() && (s[b] == 'e' || s[b] == 'E') {
            let es = if b + 1 < s.len() && is_sign_char(s[b + 1]) {
                1int
            } else {
                0int
            };
            lemma_digit_run_len_bounds(s, b + 1 + es);
        }
    } else if !(s[i] == '(' || s[i] == ')' || is_space_char(s[i]) || if_kw_at(s, i) || var_kw_at(
        s,
        i,
    ) || set_kw_at(s, i) || range_kw_at(s, i) || for_kw_at(s, i) || true_lit_at(s, i)
        || false_lit_at(s, i) || pair_at(s, i, '&') || pair_at(s, i, '|') || pair_at(s, i, '=') || s[i]
        == '+' || s[i] == '-' || s[i] == '*' || s[i] == '/' || s[i] == '!' || s[i] == '>' || s[i]
        == '<') {
        if name_matches_at(s, i) {
            lemma_word_run_len_bounds(s, i + 1);
        }
    }
}

} // verus!
