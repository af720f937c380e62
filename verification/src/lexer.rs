//! Splits the argument text of a specdrs attribute or macro into Rust tokens.
use vstd::prelude::*;

use crate::text::{chars_of, string_from_chars};

verus! {

/// One Rust token of attribute argument text.
#[derive(Debug)]
pub enum Token {
    /// An identifier or keyword.
    Ident(String),
    /// A single punctuation character other than a delimiter.
    Punct(char),
    /// The path separator `::`.
    PathSep,
    /// A string literal, holding its decoded value.
    Literal(String),
    /// A numeric literal, holding its text.
    Number(String),
    /// An opening delimiter: `(`, `[` or `{`.
    Open(char),
    /// A closing delimiter: `)`, `]` or `}`.
    Close(char),
}

/// Mathematical value of a [`Token`].
pub enum TokenV {
    Ident(Seq<char>),
    Punct(char),
    PathSep,
    Literal(Seq<char>),
    Number(Seq<char>),
    Open(char),
    Close(char),
}

impl DeepView for Token {
    type V = TokenV;

    open spec fn deep_view(&self) -> TokenV {
        match self {
            Token::Ident(s) => TokenV::Ident(s@),
            Token::Punct(c) => TokenV::Punct(*c),
            Token::PathSep => TokenV::PathSep,
            Token::Literal(s) => TokenV::Literal(s@),
            Token::Number(s) => TokenV::Number(s@),
            Token::Open(c) => TokenV::Open(*c),
            Token::Close(c) => TokenV::Close(*c),
        }
    }
}

/// Why argument text could not be split into tokens.
#[derive(Debug, Clone, Copy, PartialEq, Eq, Structural)]
pub enum LexError {
    /// A character that starts no Rust token.
    UnexpectedCharacter(char),
    /// A string literal or block comment without its end.
    Unterminated,
    /// An escape sequence this grammar does not decode.
    InvalidEscape,
    /// A closing delimiter without its opening one, or an unclosed opening one.
    UnbalancedDelimiter,
}

pub open spec fn is_ident_start(c: char) -> bool {
    ('a' <= c && c <= 'z') || ('A' <= c && c <= 'Z') || c == '_'
}

pub open spec fn is_ident_continue(c: char) -> bool {
    is_ident_start(c) || ('0' <= c && c <= '9')
}

pub open spec fn is_digit(c: char) -> bool {
    '0' <= c && c <= '9'
}

/// Rust whitespace.
pub open spec fn is_space(c: char) -> bool {
    c == ' ' || c == '\t' || c == '\n' || c == '\r' || c == '\u{0b}' || c == '\u{0c}'
        || c == '\u{85}' || c == '\u{200e}' || c == '\u{200f}' || c == '\u{2028}'
        || c == '\u{2029}'
}

pub open spec fn is_punct(c: char) -> bool {
    c == ',' || c == '=' || c == ':' || c == '<' || c == '>' || c == '&' || c == '!' || c
        == '#' || c == '$' || c == '%' || c == '*' || c == '+' || c == '-' || c == '.' || c
        == '/' || c == ';' || c == '?' || c == '@' || c == '^' || c == '|' || c == '~'
}

pub open spec fn is_open(c: char) -> bool {
    c == '(' || c == '[' || c == '{'
}

pub open spec fn is_close(c: char) -> bool {
    c == ')' || c == ']' || c == '}'
}

/// Value of a hexadecimal digit.
pub open spec fn hex_value(c: char) -> int {
    if '0' <= c && c <= '9' {
        (c as int) - ('0' as int)
    } else if 'a' <= c && c <= 'f' {
        (c as int) - ('a' as int) + 10
    } else if 'A' <= c && c <= 'F' {
        (c as int) - ('A' as int) + 10
    } else {
        -1
    }
}

/// End of the run of identifier characters starting at `i`.
pub open spec fn word_end(s: Seq<char>, i: int) -> int
    decreases s.len() - i,
{
    if 0 <= i < s.len() && is_ident_continue(s[i]) {
        word_end(s, i + 1)
    } else {
        i
    }
}

/// Position of the newline ending the line comment at `i`, or the end of input.
pub open spec fn line_end(s: Seq<char>, i: int) -> int
    decreases s.len() - i,
{
    if 0 <= i < s.len() && s[i] != '\n' {
        line_end(s, i + 1)
    } else {
        i
    }
}

/// Position after the `*/` closing a block comment whose body starts at `i`.
pub open spec fn block_end(s: Seq<char>, i: int) -> Option<int>
    decreases s.len() - i,
{
    if i < 0 || i + 1 >= s.len() {
        None
    } else if s[i] == '*' && s[i + 1] == '/' {
        Some(i + 2)
    } else {
        block_end(s, i + 1)
    }
}

/// Position of the first non-whitespace character at or after `i`.
pub open spec fn space_end(s: Seq<char>, i: int) -> int
    decreases s.len() - i,
{
    if 0 <= i < s.len() && is_space(s[i]) {
        space_end(s, i + 1)
    } else {
        i
    }
}

/// Decodes a string literal body starting at `i`: its value and the position after the quote.
pub open spec fn scan_string(s: Seq<char>, i: int, acc: Seq<char>) -> Result<(Seq<char>, int), LexError>
    decreases s.len() - i,
{
    if i < 0 || i >= s.len() {
        Err(LexError::Unterminated)
    } else if s[i] == '"' {
        Ok((acc, i + 1))
    } else if s[i] == '\\' {
        if i + 1 >= s.len() {
            Err(LexError::Unterminated)
        } else {
            let e = s[i + 1];
            if e == 'n' {
                scan_string(s, i + 2, acc.push('\n'))
            } else if e == 'r' {
                scan_string(s, i + 2, acc.push('\r'))
            } else if e == 't' {
                scan_string(s, i + 2, acc.push('\t'))
            } else if e == '\\' {
                scan_string(s, i + 2, acc.push('\\'))
            } else if e == '0' {
                scan_string(s, i + 2, acc.push('\0'))
            } else if e == '"' {
                scan_string(s, i + 2, acc.push('"'))
            } else if e == '\'' {
                scan_string(s, i + 2, acc.push('\''))
            } else if e == '\n' {
                let j = space_end(s, i + 2);
                if i < j <= s.len() {
                    scan_string(s, j, acc)
                } else {
                    Err(LexError::Unterminated)
                }
            } else if e == 'x' && i + 3 < s.len() && 0 <= hex_value(s[i + 2]) <= 7 && 0
                <= hex_value(s[i + 3]) {
                scan_string(
                    s,
                    i + 4,
                    acc.push((hex_value(s[i + 2]) * 16 + hex_value(s[i + 3])) as u8 as char),
                )
            } else {
                Err(LexError::InvalidEscape)
            }
        }
    } else {
        scan_string(s, i + 1, acc.push(s[i]))
    }
}

/// Whether the `h` characters from `i` are all `#`.
pub open spec fn hashes_at(s: Seq<char>, i: int, h: int) -> bool {
    0 <= i && i + h <= s.len() && forall|k: int| i <= k < i + h ==> s[k] == '#'
}

/// Number of `#` characters starting at `i`.
pub open spec fn hash_count(s: Seq<char>, i: int) -> int
    decreases s.len() - i,
{
    if 0 <= i < s.len() && s[i] == '#' {
        1 + hash_count(s, i + 1)
    } else {
        0
    }
}

/// Reads a raw string body starting at `i`, closed by a quote and `h` hashes.
pub open spec fn scan_raw(s: Seq<char>, i: int, h: int, acc: Seq<char>) -> Result<(Seq<char>, int), LexError>
    decreases s.len() - i,
{
    if i < 0 || i >= s.len() {
        Err(LexError::Unterminated)
    } else if s[i] == '"' && hashes_at(s, i + 1, h) {
        Ok((acc, i + 1 + h))
    } else {
        scan_raw(s, i + 1, h, acc.push(s[i]))
    }
}

/// The token starting at a non-space, non-comment position `i`, and the position after it.
pub open spec fn token_at(s: Seq<char>, i: int) -> Result<(TokenV, int), LexError> {
    let c = s[i];
    if c == 'r' && i + 1 < s.len() && (s[i + 1] == '"' || s[i + 1] == '#') {
        let h = hash_count(s, i + 1);
        if i + 1 + h < s.len() && s[i + 1 + h] == '"' {
            match scan_raw(s, i + 2 + h, h, Seq::empty()) {
                Ok((value, j)) => Ok((TokenV::Literal(value), j)),
                Err(e) => Err(e),
            }
        } else {
            Err(LexError::UnexpectedCharacter('#'))
        }
    } else if is_ident_start(c) {
        let j = word_end(s, i);
        Ok((TokenV::Ident(s.subrange(i, j)), j))
    } else if is_digit(c) {
        let j = word_end(s, i);
        Ok((TokenV::Number(s.subrange(i, j)), j))
    } else if c == '"' {
        match scan_string(s, i + 1, Seq::empty()) {
            Ok((value, j)) => Ok((TokenV::Literal(value), j)),
            Err(e) => Err(e),
        }
    } else if c == ':' && i + 1 < s.len() && s[i + 1] == ':' {
        Ok((TokenV::PathSep, i + 2))
    } else if is_open(c) {
        Ok((TokenV::Open(c), i + 1))
    } else if is_close(c) {
        Ok((TokenV::Close(c), i + 1))
    } else if is_punct(c) {
        Ok((TokenV::Punct(c), i + 1))
    } else {
        Err(LexError::UnexpectedCharacter(c))
    }
}

/// Tokens of the text from position `i` on.
pub open spec fn lex_from(s: Seq<char>, i: int) -> Result<Seq<TokenV>, LexError>
    decreases s.len() - i,
{
    if i < 0 || i >= s.len() {
        Ok(Seq::empty())
    } else if is_space(s[i]) {
        lex_from(s, i + 1)
    } else if s[i] == '/' && i + 1 < s.len() && s[i + 1] == '/' {
        let j = line_end(s, i + 2);
        if i < j <= s.len() {
            lex_from(s, j)
        } else {
            Ok(Seq::empty())
        }
    } else if s[i] == '/' && i + 1 < s.len() && s[i + 1] == '*' {
        match block_end(s, i + 2) {
            Some(j) => if i < j <= s.len() {
                lex_from(s, j)
            } else {
                Err(LexError::Unterminated)
            },
            None => Err(LexError::Unterminated),
        }
    } else {
        match token_at(s, i) {
            Ok((t, j)) => if i < j <= s.len() {
                match lex_from(s, j) {
                    Ok(rest) => Ok(seq![t] + rest),
                    Err(e) => Err(e),
                }
            } else {
                Err(LexError::UnexpectedCharacter(s[i]))
            },
            Err(e) => Err(e),
        }
    }
}

/// The closing delimiter matching an opening one.
pub open spec fn closer(c: char) -> char {
    if c == '(' {
        ')'
    } else if c == '[' {
        ']'
    } else {
        '}'
    }
}

/// Whether the tokens from `k` on close the still-open delimiters on `stack` (innermost last).
pub open spec fn balanced_from(t: Seq<TokenV>, k: int, stack: Seq<char>) -> bool
    decreases t.len() - k,
{
    if k < 0 || k >= t.len() {
        stack.len() == 0
    } else {
        match t[k] {
            TokenV::Open(c) => balanced_from(t, k + 1, stack.push(closer(c))),
            TokenV::Close(c) => stack.len() > 0 && stack.last() == c && balanced_from(
                t,
                k + 1,
                stack.drop_last(),
            ),
            _ => balanced_from(t, k + 1, stack),
        }
    }
}

/// The tokens of a whole argument text, with every delimiter matched.
pub open spec fn lex(s: Seq<char>) -> Result<Seq<TokenV>, LexError> {
    match lex_from(s, 0) {
        Ok(t) => if balanced_from(t, 0, Seq::empty()) {
            Ok(t)
        } else {
            Err(LexError::UnbalancedDelimiter)
        },
        Err(e) => Err(e),
    }
}

fn is_ident_start_char(c: char) -> (r: bool)
    ensures
        r == is_ident_start(c),
{
    ('a' <= c && c <= 'z') || ('A' <= c && c <= 'Z') || c == '_'
}

fn is_ident_continue_char(c: char) -> (r: bool)
    ensures
        r == is_ident_continue(c),
{
    is_ident_start_char(c) || ('0' <= c && c <= '9')
}

fn is_space_char(c: char) -> (r: bool)
    ensures
        r == is_space(c),
{
    c == ' ' || c == '\t' || c == '\n' || c == '\r' || c == '\u{0b}' || c == '\u{0c}' || c
        == '\u{85}' || c == '\u{200e}' || c == '\u{200f}' || c == '\u{2028}' || c == '\u{2029}'
}

fn is_punct_char(c: char) -> (r: bool)
    ensures
        r == is_punct(c),
{
    c == ',' || c == '=' || c == ':' || c == '<' || c == '>' || c == '&' || c == '!' || c
        == '#' || c == '$' || c == '%' || c == '*' || c == '+' || c == '-' || c == '.' || c
        == '/' || c == ';' || c == '?' || c == '@' || c == '^' || c == '|' || c == '~'
}

fn hex_digit(c: char) -> (r: Option<u8>)
    ensures
        match r {
            Some(v) => hex_value(c) == v as int && 0 <= v < 16,
            None => hex_value(c) == -1,
        },
{
    if '0' <= c && c <= '9' {
        Some(((c as u32) - ('0' as u32)) as u8)
    } else if 'a' <= c && c <= 'f' {
        Some(((c as u32) - ('a' as u32) + 10) as u8)
    } else if 'A' <= c && c <= 'F' {
        Some(((c as u32) - ('A' as u32) + 10) as u8)
    } else {
        None
    }
}

fn word_end_at(s: &Vec<char>, i: usize) -> (r: usize)
    requires
        i <= s@.len(),
    ensures
        r as int == word_end(s@, i as int),
        i <= r <= s@.len(),
{
    let mut j = i;
    while j < s.len() && is_ident_continue_char(s[j])
        invariant
            i <= j <= s@.len(),
            word_end(s@, i as int) == word_end(s@, j as int),
        decreases s@.len() - j,
    {
        j = j + 1;
    }
    j
}

fn line_end_at(s: &Vec<char>, i: usize) -> (r: usize)
    requires
        i <= s@.len(),
    ensures
        r as int == line_end(s@, i as int),
        i <= r <= s@.len(),
{
    let mut j = i;
    while j < s.len() && s[j] != '\n'
        invariant
            i <= j <= s@.len(),
            line_end(s@, i as int) == line_end(s@, j as int),
        decreases s@.len() - j,
    {
        j = j + 1;
    }
    j
}

fn space_end_at(s: &Vec<char>, i: usize) -> (r: usize)
    requires
        i <= s@.len(),
    ensures
        r as int == space_end(s@, i as int),
        i <= r <= s@.len(),
{
    let mut j = i;
    while j < s.len() && is_space_char(s[j])
        invariant
            i <= j <= s@.len(),
            space_end(s@, i as int) == space_end(s@, j as int),
        decreases s@.len() - j,
    {
        j = j + 1;
    }
    j
}

fn block_end_at(s: &Vec<char>, i: usize) -> (r: Option<usize>)
    requires
        i <= s@.len(),
    ensures
        match r {
            Some(j) => block_end(s@, i as int) == Some(j as int) && i + 2 <= j <= s@.len(),
            None => block_end(s@, i as int) is None,
        },
{
    let mut j = i;
    while j < s.len() && s.len() - j > 1
        invariant
            i <= j <= s@.len(),
            block_end(s@, i as int) == block_end(s@, j as int),
        decreases s@.len() - j,
    {
        if s[j] == '*' && s[j + 1] == '/' {
            return Some(j + 2);
        }
        j = j + 1;
    }
    None
}

fn hash_count_at(s: &Vec<char>, i: usize) -> (r: usize)
    requires
        i <= s@.len(),
    ensures
        r as int == hash_count(s@, i as int),
        i + r <= s@.len(),
        hashes_at(s@, i as int, r as int),
{
    let mut j = i;
    while j < s.len() && s[j] == '#'
        invariant
            i <= j <= s@.len(),
            hash_count(s@, i as int) == (j - i) + hash_count(s@, j as int),
            hashes_at(s@, i as int, j - i),
        decreases s@.len() - j,
    {
        j = j + 1;
    }
    j - i
}

fn scan_string_at(s: &Vec<char>, i: usize) -> (r: Result<(String, usize), LexError>)
    requires
        i <= s@.len(),
    ensures
        match r {
            Ok((value, j)) => scan_string(s@, i as int, Seq::empty()) == Ok::<(Seq<char>, int), LexError>((value@, j as int)) && i < j <= s@.len(),
            Err(e) => scan_string(s@, i as int, Seq::empty()) == Err::<(Seq<char>, int), LexError>(e),
        },
{
    let mut acc: Vec<char> = Vec::new();
    let mut j = i;
    while j < s.len()
        invariant
            i <= j <= s@.len(),
            scan_string(s@, i as int, Seq::empty()) == scan_string(s@, j as int, acc@),
        decreases s@.len() - j,
    {
        let c = s[j];
        if c == '"' {
            return Ok((string_from_chars(acc.as_slice()), j + 1));
        } else if c == '\\' {
            if s.len() - j <= 1 {
                return Err(LexError::Unterminated);
            }
            let e = s[j + 1];
            if e == 'n' {
                acc.push('\n');
                j = j + 2;
            } else if e == 'r' {
                acc.push('\r');
                j = j + 2;
            } else if e == 't' {
                acc.push('\t');
                j = j + 2;
            } else if e == '\\' {
                acc.push('\\');
                j = j + 2;
            } else if e == '0' {
                acc.push('\0');
                j = j + 2;
            } else if e == '"' {
                acc.push('"');
                j = j + 2;
            } else if e == '\'' {
                acc.push('\'');
                j = j + 2;
            } else if e == '\n' {
                j = space_end_at(s, j + 2);
            } else if e == 'x' && s.len() - j > 3 {
                match (hex_digit(s[j + 2]), hex_digit(s[j + 3])) {
                    (Some(hi), Some(lo)) => {
                        if hi <= 7 {
                            let v: u8 = hi * 16 + lo;
                            acc.push(v as char);
                            j = j + 4;
                        } else {
                            return Err(LexError::InvalidEscape);
                        }
                    },
                    _ => return Err(LexError::InvalidEscape),
                }
            } else {
                return Err(LexError::InvalidEscape);
            }
        } else {
            acc.push(c);
            j = j + 1;
        }
    }
    Err(LexError::Unterminated)
}

fn hashes_follow(s: &Vec<char>, base: usize, h: usize) -> (r: bool)
    requires
        base + h <= s@.len(),
    ensures
        r == hashes_at(s@, base as int, h as int),
{
    let mut k: usize = 0;
    while k < h
        invariant
            base + h <= s.len(),
            k <= h,
            forall|m: int| base <= m < base + k ==> s@[m] == '#',
        decreases h - k,
    {
        if s[base + k] != '#' {
            assert(s@[base + k] != '#');
            return false;
        }
        k = k + 1;
    }
    true
}

fn scan_raw_at(s: &Vec<char>, i: usize, h: usize) -> (r: Result<(String, usize), LexError>)
    requires
        i <= s@.len(),
    ensures
        match r {
            Ok((value, j)) => scan_raw(s@, i as int, h as int, Seq::empty()) == Ok::<(Seq<char>, int), LexError>((value@, j as int)) && i < j <= s@.len(),
            Err(e) => scan_raw(s@, i as int, h as int, Seq::empty()) == Err::<(Seq<char>, int), LexError>(e),
        },
{
    let mut acc: Vec<char> = Vec::new();
    let mut j = i;
    while j < s.len()
        invariant
            i <= j <= s@.len(),
            scan_raw(s@, i as int, h as int, Seq::empty()) == scan_raw(s@, j as int, h as int, acc@),
        decreases s@.len() - j,
    {
        if s[j] == '"' {
            let avail = s.len() - j - 1;
            if h <= avail && hashes_follow(s, j + 1, h) {
                return Ok((string_from_chars(acc.as_slice()), j + 1 + h));
            }
        }
        acc.push(s[j]);
        j = j + 1;
    }
    Err(LexError::Unterminated)
}

proof fn lemma_word_end_ge(s: Seq<char>, k: int)
    ensures
        word_end(s, k) >= k,
        0 <= k ==> word_end(s, k) <= s.len() || word_end(s, k) == k,
    decreases s.len() - k,
{
    if 0 <= k < s.len() && is_ident_continue(s[k]) {
        lemma_word_end_ge(s, k + 1);
    }
}

fn token_from(s: &Vec<char>, i: usize) -> (r: Result<(Token, usize), LexError>)
    requires
        i < s@.len(),
    ensures
        match r {
            Ok((t, j)) => token_at(s@, i as int) == Ok::<(TokenV, int), LexError>((t.deep_view(), j as int)) && i < j <= s@.len(),
            Err(e) => token_at(s@, i as int) == Err::<(TokenV, int), LexError>(e),
        },
{
    let n = s.len();
    assert(n == s@.len());
    let c = s[i];
    if c == 'r' && s.len() - i > 1 && (s[i + 1] == '"' || s[i + 1] == '#') {
        let h = hash_count_at(s, i + 1);
        if s.len() - i - 1 > h && s[i + 1 + h] == '"' {
            match scan_raw_at(s, i + 2 + h, h) {
                Ok((value, j)) => Ok((Token::Literal(value), j)),
                Err(e) => Err(e),
            }
        } else {
            Err(LexError::UnexpectedCharacter('#'))
        }
    } else if is_ident_start_char(c) {
        let j = word_end_at(s, i);
        proof {
            assert(word_end(s@, i as int) == word_end(s@, i + 1));
            lemma_word_end_ge(s@, i + 1);
        }
        let text = string_from_chars(slice_range(s, i, j).as_slice());
        Ok((Token::Ident(text), j))
    } else if '0' <= c && c <= '9' {
        let j = word_end_at(s, i);
        proof {
            assert(word_end(s@, i as int) == word_end(s@, i + 1));
            lemma_word_end_ge(s@, i + 1);
        }
        let text = string_from_chars(slice_range(s, i, j).as_slice());
        Ok((Token::Number(text), j))
    } else if c == '"' {
        match scan_string_at(s, i + 1) {
            Ok((value, j)) => Ok((Token::Literal(value), j)),
            Err(e) => Err(e),
        }
    } else if c == ':' && s.len() - i > 1 && s[i + 1] == ':' {
        Ok((Token::PathSep, i + 2))
    } else if c == '(' || c == '[' || c == '{' {
        Ok((Token::Open(c), i + 1))
    } else if c == ')' || c == ']' || c == '}' {
        Ok((Token::Close(c), i + 1))
    } else if is_punct_char(c) {
        Ok((Token::Punct(c), i + 1))
    } else {
        Err(LexError::UnexpectedCharacter(c))
    }
}

/// Copies the characters in `[from, to)`.
pub fn slice_range(s: &Vec<char>, from: usize, to: usize) -> (r: Vec<char>)
    requires
        from <= to <= s@.len(),
    ensures
        r@ == s@.subrange(from as int, to as int),
{
    let mut r: Vec<char> = Vec::new();
    let mut k = from;
    while k < to
        invariant
            from <= k <= to <= s@.len(),
            r@ == s@.subrange(from as int, k as int),
        decreases to - k,
    {
        r.push(s[k]);
        k = k + 1;
        assert(r@ =~= s@.subrange(from as int, k as int));
    }
    r
}

fn check_balance(t: &Vec<Token>) -> (r: bool)
    ensures
        r == balanced_from(t.deep_view(), 0, Seq::empty()),
{
    let ghost tv = t.deep_view();
    let mut stack: Vec<char> = Vec::new();
    let mut k: usize = 0;
    while k < t.len()
        invariant
            k <= t@.len(),
            tv == t.deep_view(),
            balanced_from(tv, 0, Seq::empty()) == balanced_from(tv, k as int, stack@),
        decreases t@.len() - k,
    {
        match &t[k] {
            Token::Open(c) => {
                let close = if *c == '(' {
                    ')'
                } else if *c == '[' {
                    ']'
                } else {
                    '}'
                };
                stack.push(close);
            },
            Token::Close(c) => {
                if stack.len() == 0 {
                    return false;
                }
                if stack[stack.len() - 1] != *c {
                    return false;
                }
                let _ = stack.pop();
                assert(stack@ =~= old_stack_drop(stack@));
            },
            _ => {},
        }
        k = k + 1;
    }
    stack.len() == 0
}

spec fn old_stack_drop(s: Seq<char>) -> Seq<char> {
    s
}

/// Splits argument text into tokens, or reports why it is not Rust token text.
pub fn lex_text(text: &str) -> (r: Result<Vec<Token>, LexError>)
    ensures
        match r {
            Ok(t) => lex(text@) == Ok::<Seq<TokenV>, LexError>(t.deep_view()),
            Err(e) => lex(text@) == Err::<Seq<TokenV>, LexError>(e),
        },
{
    let s = chars_of(text);
    let mut tokens: Vec<Token> = Vec::new();
    let mut i: usize = 0;
    while i < s.len()
        invariant
            i <= s@.len(),
            s@ == text@,
            lex_from(s@, 0) == (match lex_from(s@, i as int) {
                Ok(rest) => Ok(tokens.deep_view() + rest),
                Err(e) => Err::<Seq<TokenV>, LexError>(e),
            }),
        decreases s@.len() - i,
    {
        let c = s[i];
        if is_space_char(c) {
            i = i + 1;
        } else if c == '/' && s.len() - i > 1 && s[i + 1] == '/' {
            i = line_end_at(&s, i + 2);
        } else if c == '/' && s.len() - i > 1 && s[i + 1] == '*' {
            match block_end_at(&s, i + 2) {
                Some(j) => {
                    i = j;
                },
                None => return Err(LexError::Unterminated),
            }
        } else {
            match token_from(&s, i) {
                Ok((t, j)) => {
                    let ghost before = tokens.deep_view();
                    let ghost tv = t.deep_view();
                    tokens.push(t);
                    proof {
                        assert(tokens.deep_view() =~= before.push(tv));
                        match lex_from(s@, j as int) {
                            Ok(rest) => {
                                assert(before + (seq![tv] + rest) =~= before.push(tv) + rest);
                            },
                            Err(e) => {},
                        }
                    }
                    i = j;
                },
                Err(e) => return Err(e),
            }
        }
    }
    proof {
        assert(tokens.deep_view() + Seq::<TokenV>::empty() =~= tokens.deep_view());
    }
    if check_balance(&tokens) {
        Ok(tokens)
    } else {
        Err(LexError::UnbalancedDelimiter)
    }
}

} // verus!
