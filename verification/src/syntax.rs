//! The specdrs attribute grammar, shared by the attribute macro and the source scanner.
//!
//! Argument text is first split into Rust tokens ([`crate::lexer`]); the functions here
//! parse those tokens. Every parser has a specification twin over token values that
//! states the accepted language and the value produced.
use vstd::prelude::*;

use crate::lexer::{LexError, Token, TokenV};
use crate::text::{append, concat, push_char, same_string, string_lit};

verus! {

/// Why attribute arguments were rejected.
#[derive(Debug, Clone, Copy, PartialEq, Eq, Structural)]
pub enum SyntaxErrorKind {
    /// The text is not Rust token text.
    Lex(LexError),
    /// An identifier (not a keyword) was required.
    ExpectedIdent,
    /// A `,` or the end of the group was required.
    ExpectedComma,
    /// A parenthesized group was required.
    ExpectedParens,
    /// A string literal was required.
    ExpectedString,
    /// The keyword `as` was required.
    ExpectedAs,
    /// A `=` was required.
    ExpectedEq,
    /// A Rust type path was required.
    ExpectedTypePath,
    /// A delimiter group has no closing delimiter.
    UnbalancedGroup,
    /// A top-level directive other than `span`, `in_spans` or `claims`.
    UnknownDirective,
    /// A span field written twice.
    DuplicateSpanField,
    /// A span field other than `id`, `parent`, `entry` or `claims`.
    UnknownSpanField,
    /// A span without `id`.
    SpanRequiresId,
    /// A field whose value must be a string literal (the subject names the field).
    StringLiteralRequired,
    /// Claim groups out of their fixed order.
    ClaimsGroupOrder,
    /// A claim group written twice.
    DuplicateClaimsGroup,
    /// A claim group other than the five known ones.
    UnknownClaimsGroup,
    /// Two claims with one alias.
    UniqueClaimAliases,
    /// Evidence for an alias no claim has (the subject names the alias).
    UnknownEvidenceAlias,
    /// A name that is no axis (the subject holds it).
    UnknownAxis,
    /// An axis written twice inside one kind group.
    DuplicateAxisInKindGroup,
    /// An axis group without claims.
    EmptyAxisGroup,
    /// A kind group without axis groups.
    EmptyKindGroup,
    /// An axis declared not applicable twice.
    DuplicateNotApplicableAxis,
    /// A `NotApplicable` group without axes.
    EmptyNotApplicable,
    /// An evidence alias written twice.
    DuplicateEvidenceAlias,
    /// One evidence link written twice for an alias.
    DuplicateEvidenceLink,
    /// An evidence alias without links.
    EmptyEvidenceAlias,
    /// An `evidence` group without entries.
    EmptyEvidenceGroup,
    /// An evidence kind other than Type, Test, Fuzz, Proof or Lint.
    UnknownEvidenceKind,
    /// An `in_spans` without span ids.
    EmptyInSpans,
}

/// A rejection of attribute arguments, with the name it concerns where it has one.
#[derive(Debug)]
pub struct SyntaxError {
    pub kind: SyntaxErrorKind,
    pub subject: String,
}

/// Mathematical value of a [`SyntaxError`].
pub struct SyntaxErrorV {
    pub kind: SyntaxErrorKind,
    pub subject: Seq<char>,
}

impl DeepView for SyntaxError {
    type V = SyntaxErrorV;

    open spec fn deep_view(&self) -> SyntaxErrorV {
        SyntaxErrorV { kind: self.kind, subject: self.subject@ }
    }
}

/// An error without a subject.
pub open spec fn err(kind: SyntaxErrorKind) -> SyntaxErrorV {
    SyntaxErrorV { kind, subject: Seq::empty() }
}

/// An error concerning a name.
pub open spec fn err_on(kind: SyntaxErrorKind, subject: Seq<char>) -> SyntaxErrorV {
    SyntaxErrorV { kind, subject }
}

pub(crate) fn fail(kind: SyntaxErrorKind) -> (r: SyntaxError)
    ensures
        r.deep_view() == err(kind),
{
    SyntaxError { kind, subject: String::new() }
}

pub(crate) fn fail_on(kind: SyntaxErrorKind, subject: &String) -> (r: SyntaxError)
    ensures
        r.deep_view() == err_on(kind, subject@),
{
    SyntaxError { kind, subject: subject.clone() }
}

/// The text of the diagnostic for an attribute written without arguments.
pub open spec fn arguments_message() -> Seq<char> {
    "specdrs requires arguments. Write #[specdrs(span(...))], #[specdrs(in_spans(\"checkout\"))], or #[specdrs(claims(...))]"@
}

/// The diagnostic for an attribute written without arguments.
pub fn specdrs_requires_arguments() -> (r: &'static str)
    ensures
        r@ == arguments_message(),
{
    "specdrs requires arguments. Write #[specdrs(span(...))], #[specdrs(in_spans(\"checkout\"))], or #[specdrs(claims(...))]"
}

/// The text of the diagnostic for a host-free span declaration without `entry`.
pub open spec fn span_entry_message() -> Seq<char> {
    "specdrs_span! requires `entry` because the invocation has no host item. Write specdrs_span!(id = \"checkout\", entry = crate::checkout::run)"@
}

/// The diagnostic for a host-free span declaration without `entry`.
pub fn specdrs_span_requires_entrypoint() -> (r: &'static str)
    ensures
        r@ == span_entry_message(),
{
    "specdrs_span! requires `entry` because the invocation has no host item. Write specdrs_span!(id = \"checkout\", entry = crate::checkout::run)"
}

/// The text of the diagnostic for a module declaration holding anything but memberships.
pub open spec fn module_message() -> Seq<char> {
    "specdrs_module! requires one or more in_spans directives. Write specdrs_module!(in_spans(\"checkout\")). It cannot declare a span or own claims"@
}

/// The diagnostic for a module declaration holding anything but memberships.
pub fn specdrs_module_requires_in_spans() -> (r: &'static str)
    ensures
        r@ == module_message(),
{
    "specdrs_module! requires one or more in_spans directives. Write specdrs_module!(in_spans(\"checkout\")). It cannot declare a span or own claims"
}

/// The text of the diagnostic for claims declared on an `impl` block.
pub open spec fn impl_claims_message() -> Seq<char> {
    "an impl block cannot own claims. An impl has no def path, so it cannot be a claim owner. Declare span(...) on the impl with an explicit entrypoint, or move claims(...) to the implemented type or one method"@
}

/// The diagnostic for claims declared on an `impl` block.
pub fn impl_cannot_own_claims() -> (r: &'static str)
    ensures
        r@ == impl_claims_message(),
{
    "an impl block cannot own claims. An impl has no def path, so it cannot be a claim owner. Declare span(...) on the impl with an explicit entrypoint, or move claims(...) to the implemented type or one method"
}

/// The text of a syntax error.
pub open spec fn error_message(e: SyntaxErrorV) -> Seq<char> {
    match e.kind {
        SyntaxErrorKind::Lex(_) => "invalid Rust tokens in specdrs arguments"@,
        SyntaxErrorKind::ExpectedIdent => "expected identifier"@,
        SyntaxErrorKind::ExpectedComma => "expected `,`"@,
        SyntaxErrorKind::ExpectedParens => "expected parentheses"@,
        SyntaxErrorKind::ExpectedString => "expected string literal"@,
        SyntaxErrorKind::ExpectedAs => "expected `as`"@,
        SyntaxErrorKind::ExpectedEq => "expected `=`"@,
        SyntaxErrorKind::ExpectedTypePath => "expected a Rust type path"@,
        SyntaxErrorKind::UnbalancedGroup => "unbalanced delimiter"@,
        SyntaxErrorKind::UnknownDirective => "unknown specdrs directive. Use span(...), in_spans(...), or claims(...)"@,
        SyntaxErrorKind::DuplicateSpanField => "duplicate span field. Write each of id, parent, entry, and claims at most once"@,
        SyntaxErrorKind::UnknownSpanField => "unknown span field. A span accepts id, parent, entry, and claims"@,
        SyntaxErrorKind::SpanRequiresId => "span requires id. Write span(id = \"checkout\", ...)"@,
        SyntaxErrorKind::StringLiteralRequired => "`"@ + e.subject + "` requires a string literal"@,
        SyntaxErrorKind::ClaimsGroupOrder => "claim groups must be ordered Objectives, Constraints, Assumptions, NotApplicable, then evidence"@,
        SyntaxErrorKind::DuplicateClaimsGroup => "duplicate claims group. Write each of Objectives, Constraints, Assumptions, NotApplicable, and evidence at most once"@,
        SyntaxErrorKind::UnknownClaimsGroup => "unknown claims group. Use Objectives, Constraints, Assumptions, NotApplicable, or evidence"@,
        SyntaxErrorKind::UniqueClaimAliases => "claim aliases must be unique within one claims block"@,
        SyntaxErrorKind::UnknownEvidenceAlias => "evidence names unknown claim alias `"@ + e.subject + "`"@,
        SyntaxErrorKind::UnknownAxis => "unknown axis `"@ + e.subject + "`"@,
        SyntaxErrorKind::DuplicateAxisInKindGroup => "duplicate axis in one kind group. Put every claim on an axis in one group"@,
        SyntaxErrorKind::EmptyAxisGroup => "an axis group requires one or more claims"@,
        SyntaxErrorKind::EmptyKindGroup => "a kind group requires one or more axis groups"@,
        SyntaxErrorKind::DuplicateNotApplicableAxis => "duplicate axis in NotApplicable"@,
        SyntaxErrorKind::EmptyNotApplicable => "NotApplicable requires one or more axes"@,
        SyntaxErrorKind::DuplicateEvidenceAlias => "duplicate evidence alias. List every link of one claim in one entry"@,
        SyntaxErrorKind::DuplicateEvidenceLink => "duplicate evidence link"@,
        SyntaxErrorKind::EmptyEvidenceAlias => "an evidence entry requires one or more links"@,
        SyntaxErrorKind::EmptyEvidenceGroup => "evidence requires one or more entries"@,
        SyntaxErrorKind::UnknownEvidenceKind => "unknown evidence kind. Use Type, Test, Fuzz, Proof, or Lint"@,
        SyntaxErrorKind::EmptyInSpans => "in_spans requires one or more span ids"@,
    }
}

impl SyntaxError {
    /// Returns the diagnostic text.
    pub fn message(&self) -> (r: String)
        ensures
            r@ == error_message(self.deep_view()),
    {
        match self.kind {
            SyntaxErrorKind::Lex(_) => string_lit("invalid Rust tokens in specdrs arguments"),
            SyntaxErrorKind::ExpectedIdent => string_lit("expected identifier"),
            SyntaxErrorKind::ExpectedComma => string_lit("expected `,`"),
            SyntaxErrorKind::ExpectedParens => string_lit("expected parentheses"),
            SyntaxErrorKind::ExpectedString => string_lit("expected string literal"),
            SyntaxErrorKind::ExpectedAs => string_lit("expected `as`"),
            SyntaxErrorKind::ExpectedEq => string_lit("expected `=`"),
            SyntaxErrorKind::ExpectedTypePath => string_lit("expected a Rust type path"),
            SyntaxErrorKind::UnbalancedGroup => string_lit("unbalanced delimiter"),
            SyntaxErrorKind::UnknownDirective => string_lit("unknown specdrs directive. Use span(...), in_spans(...), or claims(...)"),
            SyntaxErrorKind::DuplicateSpanField => string_lit("duplicate span field. Write each of id, parent, entry, and claims at most once"),
            SyntaxErrorKind::UnknownSpanField => string_lit("unknown span field. A span accepts id, parent, entry, and claims"),
            SyntaxErrorKind::SpanRequiresId => string_lit("span requires id. Write span(id = \"checkout\", ...)"),
            SyntaxErrorKind::StringLiteralRequired => {
                let mut r = concat("`", self.subject.as_str());
                append(&mut r, "` requires a string literal");
                r
            },
            SyntaxErrorKind::ClaimsGroupOrder => string_lit("claim groups must be ordered Objectives, Constraints, Assumptions, NotApplicable, then evidence"),
            SyntaxErrorKind::DuplicateClaimsGroup => string_lit("duplicate claims group. Write each of Objectives, Constraints, Assumptions, NotApplicable, and evidence at most once"),
            SyntaxErrorKind::UnknownClaimsGroup => string_lit("unknown claims group. Use Objectives, Constraints, Assumptions, NotApplicable, or evidence"),
            SyntaxErrorKind::UniqueClaimAliases => string_lit("claim aliases must be unique within one claims block"),
            SyntaxErrorKind::UnknownEvidenceAlias => {
                let mut r = concat("evidence names unknown claim alias `", self.subject.as_str());
                append(&mut r, "`");
                r
            },
            SyntaxErrorKind::UnknownAxis => {
                let mut r = concat("unknown axis `", self.subject.as_str());
                append(&mut r, "`");
                r
            },
            SyntaxErrorKind::DuplicateAxisInKindGroup => string_lit("duplicate axis in one kind group. Put every claim on an axis in one group"),
            SyntaxErrorKind::EmptyAxisGroup => string_lit("an axis group requires one or more claims"),
            SyntaxErrorKind::EmptyKindGroup => string_lit("a kind group requires one or more axis groups"),
            SyntaxErrorKind::DuplicateNotApplicableAxis => string_lit("duplicate axis in NotApplicable"),
            SyntaxErrorKind::EmptyNotApplicable => string_lit("NotApplicable requires one or more axes"),
            SyntaxErrorKind::DuplicateEvidenceAlias => string_lit("duplicate evidence alias. List every link of one claim in one entry"),
            SyntaxErrorKind::DuplicateEvidenceLink => string_lit("duplicate evidence link"),
            SyntaxErrorKind::EmptyEvidenceAlias => string_lit("an evidence entry requires one or more links"),
            SyntaxErrorKind::EmptyEvidenceGroup => string_lit("evidence requires one or more entries"),
            SyntaxErrorKind::UnknownEvidenceKind => string_lit("unknown evidence kind. Use Type, Test, Fuzz, Proof, or Lint"),
            SyntaxErrorKind::EmptyInSpans => string_lit("in_spans requires one or more span ids"),
        }
    }
}

/// Rust keywords, which a plain identifier cannot be.
pub open spec fn is_keyword(s: Seq<char>) -> bool {
    s == "_"@ || s == "abstract"@ || s == "as"@ || s == "async"@ || s == "await"@ || s
        == "become"@ || s == "box"@ || s == "break"@ || s == "const"@ || s == "continue"@ || s
        == "crate"@ || s == "do"@ || s == "dyn"@ || s == "else"@ || s == "enum"@ || s
        == "extern"@ || s == "false"@ || s == "final"@ || s == "fn"@ || s == "for"@ || s
        == "if"@ || s == "impl"@ || s == "in"@ || s == "let"@ || s == "loop"@ || s == "macro"@
        || s == "match"@ || s == "mod"@ || s == "move"@ || s == "mut"@ || s == "override"@ || s
        == "priv"@ || s == "pub"@ || s == "ref"@ || s == "return"@ || s == "Self"@ || s
        == "self"@ || s == "static"@ || s == "struct"@ || s == "super"@ || s == "trait"@ || s
        == "true"@ || s == "try"@ || s == "type"@ || s == "typeof"@ || s == "unsafe"@ || s
        == "unsized"@ || s == "use"@ || s == "virtual"@ || s == "where"@ || s == "while"@ || s
        == "yield"@
}

pub(crate) fn keyword(s: &String) -> (r: bool)
    ensures
        r == is_keyword(s@),
{
    same_string(s, "_") || same_string(s, "abstract") || same_string(s, "as") || same_string(
        s,
        "async",
    ) || same_string(s, "await") || same_string(s, "become") || same_string(s, "box")
        || same_string(s, "break") || same_string(s, "const") || same_string(s, "continue")
        || same_string(s, "crate") || same_string(s, "do") || same_string(s, "dyn")
        || same_string(s, "else") || same_string(s, "enum") || same_string(s, "extern")
        || same_string(s, "false") || same_string(s, "final") || same_string(s, "fn")
        || same_string(s, "for") || same_string(s, "if") || same_string(s, "impl")
        || same_string(s, "in") || same_string(s, "let") || same_string(s, "loop")
        || same_string(s, "macro") || same_string(s, "match") || same_string(s, "mod")
        || same_string(s, "move") || same_string(s, "mut") || same_string(s, "override")
        || same_string(s, "priv") || same_string(s, "pub") || same_string(s, "ref")
        || same_string(s, "return") || same_string(s, "Self") || same_string(s, "self")
        || same_string(s, "static") || same_string(s, "struct") || same_string(s, "super")
        || same_string(s, "trait") || same_string(s, "true") || same_string(s, "try")
        || same_string(s, "type") || same_string(s, "typeof") || same_string(s, "unsafe")
        || same_string(s, "unsized") || same_string(s, "use") || same_string(s, "virtual")
        || same_string(s, "where") || same_string(s, "while") || same_string(s, "yield")
}

/// Identifiers a path segment accepts: every non-keyword, and the path keywords.
pub open spec fn is_segment_name(s: Seq<char>) -> bool {
    !is_keyword(s) || s == "super"@ || s == "self"@ || s == "crate"@ || s == "Self"@ || s
        == "try"@
}

// ---------------------------------------------------------------------------
// Token access.

/// Whether the token at `i`, inside a group ending at `end`, is `x`.
pub open spec fn tok_is(t: Seq<TokenV>, i: int, end: int, x: TokenV) -> bool {
    0 <= i < end && end <= t.len() && t[i] == x
}

/// Whether the token at `i`, inside a group ending at `end`, is an identifier.
pub open spec fn ident_tok(t: Seq<TokenV>, i: int, end: int) -> bool {
    0 <= i < end && end <= t.len() && t[i] is Ident
}

pub(crate) fn is_tok_punct(t: &Vec<Token>, i: usize, end: usize, c: char) -> (r: bool)
    requires
        end <= t@.len(),
    ensures
        r == tok_is(t.deep_view(), i as int, end as int, TokenV::Punct(c)),
{
    if i < end {
        match &t[i] {
            Token::Punct(d) => *d == c,
            _ => false,
        }
    } else {
        false
    }
}

pub(crate) fn is_tok_sep(t: &Vec<Token>, i: usize, end: usize) -> (r: bool)
    requires
        end <= t@.len(),
    ensures
        r == tok_is(t.deep_view(), i as int, end as int, TokenV::PathSep),
{
    if i < end {
        match &t[i] {
            Token::PathSep => true,
            _ => false,
        }
    } else {
        false
    }
}

pub(crate) fn is_tok_open(t: &Vec<Token>, i: usize, end: usize, c: char) -> (r: bool)
    requires
        end <= t@.len(),
    ensures
        r == tok_is(t.deep_view(), i as int, end as int, TokenV::Open(c)),
{
    if i < end {
        match &t[i] {
            Token::Open(d) => *d == c,
            _ => false,
        }
    } else {
        false
    }
}

pub(crate) fn is_tok_ident(t: &Vec<Token>, i: usize, end: usize, name: &str) -> (r: bool)
    requires
        end <= t@.len(),
    ensures
        r == tok_is(t.deep_view(), i as int, end as int, TokenV::Ident(name@)),
{
    if i < end {
        match &t[i] {
            Token::Ident(s) => same_string(s, name),
            _ => false,
        }
    } else {
        false
    }
}

pub(crate) fn is_any_ident(t: &Vec<Token>, i: usize, end: usize) -> (r: bool)
    requires
        end <= t@.len(),
    ensures
        r == ident_tok(t.deep_view(), i as int, end as int),
{
    if i < end {
        match &t[i] {
            Token::Ident(_) => true,
            _ => false,
        }
    } else {
        false
    }
}

/// Position of the delimiter closing the group whose contents start at `k`
/// (`depth` groups are still open inside it), or -1.
pub open spec fn close_pos(t: Seq<TokenV>, k: int, depth: nat) -> int
    decreases t.len() - k,
{
    if k < 0 || k >= t.len() {
        -1
    } else {
        match t[k] {
            TokenV::Close(_) => if depth == 0 {
                k
            } else {
                close_pos(t, k + 1, (depth - 1) as nat)
            },
            TokenV::Open(_) => close_pos(t, k + 1, depth + 1),
            _ => close_pos(t, k + 1, depth),
        }
    }
}

pub(crate) fn close_of(t: &Vec<Token>, k: usize) -> (r: Option<usize>)
    requires
        k <= t@.len(),
    ensures
        match r {
            Some(m) => close_pos(t.deep_view(), k as int, 0) == m && k <= m < t@.len(),
            None => close_pos(t.deep_view(), k as int, 0) == -1,
        },
{
    let ghost tv = t.deep_view();
    let mut j = k;
    let mut depth: usize = 0;
    while j < t.len()
        invariant
            k <= j <= t@.len(),
            depth <= j,
            tv == t.deep_view(),
            close_pos(tv, k as int, 0) == close_pos(tv, j as int, depth as nat),
        decreases t@.len() - j,
    {
        match &t[j] {
            Token::Close(_) => {
                if depth == 0 {
                    return Some(j);
                }
                depth = depth - 1;
            },
            Token::Open(_) => {
                depth = depth + 1;
            },
            _ => {},
        }
        j = j + 1;
    }
    None
}

/// Inner bounds of the parenthesized group at `i`.
pub open spec fn parens(t: Seq<TokenV>, i: int, end: int) -> Result<(int, int), SyntaxErrorV> {
    if tok_is(t, i, end, TokenV::Open('(')) {
        let m = close_pos(t, i + 1, 0);
        if i < m < end {
            Ok((i + 1, m))
        } else {
            Err(err(SyntaxErrorKind::UnbalancedGroup))
        }
    } else {
        Err(err(SyntaxErrorKind::ExpectedParens))
    }
}

pub(crate) fn parens_at(t: &Vec<Token>, i: usize, end: usize) -> (r: Result<usize, SyntaxError>)
    requires
        i <= end <= t@.len(),
    ensures
        match r {
            Ok(m) => parens(t.deep_view(), i as int, end as int) == Ok::<(int, int), SyntaxErrorV>((i + 1, m as int)) && i < m < end,
            Err(e) => parens(t.deep_view(), i as int, end as int) == Err::<(int, int), SyntaxErrorV>(e.deep_view()),
        },
{
    if is_tok_open(t, i, end, '(') {
        match close_of(t, i + 1) {
            Some(m) => {
                if m < end {
                    Ok(m)
                } else {
                    Err(fail(SyntaxErrorKind::UnbalancedGroup))
                }
            },
            None => Err(fail(SyntaxErrorKind::UnbalancedGroup)),
        }
    } else {
        Err(fail(SyntaxErrorKind::ExpectedParens))
    }
}

/// Position after an optional separating comma; the group must end or continue with `,`.
pub open spec fn comma(t: Seq<TokenV>, i: int, end: int) -> Result<int, SyntaxErrorV> {
    if i == end {
        Ok(i)
    } else if tok_is(t, i, end, TokenV::Punct(',')) {
        Ok(i + 1)
    } else {
        Err(err(SyntaxErrorKind::ExpectedComma))
    }
}

pub(crate) fn comma_at(t: &Vec<Token>, i: usize, end: usize) -> (r: Result<usize, SyntaxError>)
    requires
        i <= end <= t@.len(),
    ensures
        match r {
            Ok(j) => comma(t.deep_view(), i as int, end as int) == Ok::<int, SyntaxErrorV>(j as int) && i <= j <= end,
            Err(e) => comma(t.deep_view(), i as int, end as int) == Err::<int, SyntaxErrorV>(e.deep_view()),
        },
{
    if i == end {
        Ok(i)
    } else if is_tok_punct(t, i, end, ',') {
        Ok(i + 1)
    } else {
        Err(fail(SyntaxErrorKind::ExpectedComma))
    }
}

/// The identifier (not a keyword) at `i`.
pub open spec fn ident(t: Seq<TokenV>, i: int, end: int) -> Result<(Seq<char>, int), SyntaxErrorV> {
    if ident_tok(t, i, end) && !is_keyword(t[i]->Ident_0) {
        Ok((t[i]->Ident_0, i + 1))
    } else {
        Err(err(SyntaxErrorKind::ExpectedIdent))
    }
}

pub(crate) fn ident_at(t: &Vec<Token>, i: usize, end: usize) -> (r: Result<String, SyntaxError>)
    requires
        i <= end <= t@.len(),
    ensures
        match r {
            Ok(s) => ident(t.deep_view(), i as int, end as int) == Ok::<(Seq<char>, int), SyntaxErrorV>((s@, i + 1)) && i < end,
            Err(e) => ident(t.deep_view(), i as int, end as int) == Err::<(Seq<char>, int), SyntaxErrorV>(e.deep_view()),
        },
{
    if i < end {
        match &t[i] {
            Token::Ident(s) => {
                if !keyword(s) {
                    return Ok(s.clone());
                }
            },
            _ => {},
        }
    }
    Err(fail(SyntaxErrorKind::ExpectedIdent))
}

/// The value of the string literal at `i`.
pub open spec fn lit_str(t: Seq<TokenV>, i: int, end: int) -> Result<(Seq<char>, int), SyntaxErrorV> {
    if 0 <= i < end && end <= t.len() && t[i] is Literal {
        Ok((t[i]->Literal_0, i + 1))
    } else {
        Err(err(SyntaxErrorKind::ExpectedString))
    }
}

pub(crate) fn lit_str_at(t: &Vec<Token>, i: usize, end: usize) -> (r: Result<String, SyntaxError>)
    requires
        i <= end <= t@.len(),
    ensures
        match r {
            Ok(s) => lit_str(t.deep_view(), i as int, end as int) == Ok::<(Seq<char>, int), SyntaxErrorV>((s@, i + 1)) && i < end,
            Err(e) => lit_str(t.deep_view(), i as int, end as int) == Err::<(Seq<char>, int), SyntaxErrorV>(e.deep_view()),
        },
{
    if i < end {
        match &t[i] {
            Token::Literal(s) => {
                return Ok(s.clone());
            },
            _ => {},
        }
    }
    Err(fail(SyntaxErrorKind::ExpectedString))
}

/// `= "value"`, for the field `name`.
pub open spec fn string_assignment(t: Seq<TokenV>, i: int, end: int, name: Seq<char>) -> Result<(Seq<char>, int), SyntaxErrorV> {
    if tok_is(t, i, end, TokenV::Punct('=')) {
        match lit_str(t, i + 1, end) {
            Ok(v) => Ok(v),
            Err(_) => Err(err_on(SyntaxErrorKind::StringLiteralRequired, name)),
        }
    } else {
        Err(err(SyntaxErrorKind::ExpectedEq))
    }
}

pub(crate) fn string_assignment_at(t: &Vec<Token>, i: usize, end: usize, name: &String) -> (r: Result<(String, usize), SyntaxError>)
    requires
        i <= end <= t@.len(),
    ensures
        match r {
            Ok((s, j)) => string_assignment(t.deep_view(), i as int, end as int, name@) == Ok::<(Seq<char>, int), SyntaxErrorV>((s@, j as int)) && i < j <= end,
            Err(e) => string_assignment(t.deep_view(), i as int, end as int, name@) == Err::<(Seq<char>, int), SyntaxErrorV>(e.deep_view()),
        },
{
    if is_tok_punct(t, i, end, '=') {
        match lit_str_at(t, i + 1, end) {
            Ok(v) => Ok((v, i + 2)),
            Err(_) => Err(fail_on(SyntaxErrorKind::StringLiteralRequired, name)),
        }
    } else {
        Err(fail(SyntaxErrorKind::ExpectedEq))
    }
}

// ---------------------------------------------------------------------------
// Rust type paths, as written for `entry` and evidence binders.
//
//   type      := '&' 'mut'? type | '(' types ')' | '[' type ']' | type_path
//   type_path := '<' type ('as' path)? '>' '::' segments | path
//   path      := '::'? segments
//   segments  := segment ('::' segment)*
//   segment   := ident ('::'? '<' args? '>')?
//   args      := arg (',' arg)* ','?        arg := (ident '=')? type

/// Position after the type starting at `i`.
pub open spec fn type_end(t: Seq<TokenV>, i: int, end: int) -> Result<int, SyntaxErrorV>
    decreases end - i, 5nat,
{
    if i < 0 || end > t.len() || i >= end {
        Err(err(SyntaxErrorKind::ExpectedTypePath))
    } else if t[i] == TokenV::Punct('&') {
        if i + 1 < end && t[i + 1] == TokenV::Ident("mut"@) {
            type_end(t, i + 2, end)
        } else {
            type_end(t, i + 1, end)
        }
    } else if t[i] == TokenV::Open('(') || t[i] == TokenV::Open('[') {
        let m = close_pos(t, i + 1, 0);
        if i < m < end {
            let inner = if t[i] == TokenV::Open('(') {
                type_list_end(t, i + 1, m)
            } else {
                type_end(t, i + 1, m)
            };
            match inner {
                Ok(k) => if k == m {
                    Ok(m + 1)
                } else {
                    Err(err(SyntaxErrorKind::ExpectedTypePath))
                },
                Err(e) => Err(e),
            }
        } else {
            Err(err(SyntaxErrorKind::UnbalancedGroup))
        }
    } else {
        type_path_end(t, i, end)
    }
}

/// Position after a comma-separated list of types filling `[i, end)`.
pub open spec fn type_list_end(t: Seq<TokenV>, i: int, end: int) -> Result<int, SyntaxErrorV>
    decreases end - i, 6nat,
{
    if i < 0 || end > t.len() || i > end {
        Err(err(SyntaxErrorKind::ExpectedTypePath))
    } else if i == end {
        Ok(i)
    } else {
        match type_end(t, i, end) {
            Ok(j) => if j == end {
                Ok(j)
            } else if i < j < end && t[j] == TokenV::Punct(',') {
                type_list_end(t, j + 1, end)
            } else {
                Err(err(SyntaxErrorKind::ExpectedTypePath))
            },
            Err(e) => Err(e),
        }
    }
}

/// Position after the type path starting at `i`.
pub open spec fn type_path_end(t: Seq<TokenV>, i: int, end: int) -> Result<int, SyntaxErrorV>
    decreases end - i, 4nat,
{
    if i < 0 || end > t.len() || i >= end {
        Err(err(SyntaxErrorKind::ExpectedTypePath))
    } else if t[i] == TokenV::Punct('<') {
        match type_end(t, i + 1, end) {
            Ok(j) => if i < j < end {
                let trait_end = if t[j] == TokenV::Ident("as"@) {
                    path_end(t, j + 1, end)
                } else {
                    Ok(j)
                };
                match trait_end {
                    Ok(k) => if j <= k && k + 1 < end && t[k] == TokenV::Punct('>') && t[k + 1]
                        == TokenV::PathSep {
                        segments_end(t, k + 2, end)
                    } else {
                        Err(err(SyntaxErrorKind::ExpectedTypePath))
                    },
                    Err(e) => Err(e),
                }
            } else {
                Err(err(SyntaxErrorKind::ExpectedTypePath))
            },
            Err(e) => Err(e),
        }
    } else {
        path_end(t, i, end)
    }
}

/// Position after the path starting at `i`.
pub open spec fn path_end(t: Seq<TokenV>, i: int, end: int) -> Result<int, SyntaxErrorV>
    decreases end - i, 3nat,
{
    if i < 0 || end > t.len() || i >= end {
        Err(err(SyntaxErrorKind::ExpectedTypePath))
    } else if t[i] == TokenV::PathSep {
        segments_end(t, i + 1, end)
    } else {
        segments_end(t, i, end)
    }
}

/// Position after the `::`-separated segments starting at `i`.
pub open spec fn segments_end(t: Seq<TokenV>, i: int, end: int) -> Result<int, SyntaxErrorV>
    decreases end - i, 2nat,
{
    if i < 0 || end > t.len() || i >= end {
        Err(err(SyntaxErrorKind::ExpectedTypePath))
    } else {
        match segment_end(t, i, end) {
            Ok(j) => if i < j && j + 1 < end && t[j] == TokenV::PathSep {
                segments_end(t, j + 1, end)
            } else if i < j <= end {
                Ok(j)
            } else {
                Err(err(SyntaxErrorKind::ExpectedTypePath))
            },
            Err(e) => Err(e),
        }
    }
}

/// Position after the path segment starting at `i`.
pub open spec fn segment_end(t: Seq<TokenV>, i: int, end: int) -> Result<int, SyntaxErrorV>
    decreases end - i, 1nat,
{
    if i < 0 || end > t.len() || i >= end {
        Err(err(SyntaxErrorKind::ExpectedTypePath))
    } else if t[i] is Ident && is_segment_name(t[i]->Ident_0) {
        if i + 1 < end && t[i + 1] == TokenV::Punct('<') {
            generic_args_end(t, i + 1, end)
        } else if i + 2 < end && t[i + 1] == TokenV::PathSep && t[i + 2] == TokenV::Punct('<') {
            generic_args_end(t, i + 2, end)
        } else {
            Ok(i + 1)
        }
    } else {
        Err(err(SyntaxErrorKind::ExpectedTypePath))
    }
}

/// Position after the generic arguments whose `<` is at `i`.
pub open spec fn generic_args_end(t: Seq<TokenV>, i: int, end: int) -> Result<int, SyntaxErrorV>
    decreases end - i, 0nat,
{
    if i < 0 || end > t.len() || i >= end {
        Err(err(SyntaxErrorKind::ExpectedTypePath))
    } else if i + 1 < end && t[i + 1] == TokenV::Punct('>') {
        Ok(i + 2)
    } else {
        args_end(t, i + 1, end)
    }
}

/// Position after the generic arguments starting at `i` and their closing `>`.
pub open spec fn args_end(t: Seq<TokenV>, i: int, end: int) -> Result<int, SyntaxErrorV>
    decreases end - i, 6nat,
{
    if i < 0 || end > t.len() || i >= end {
        Err(err(SyntaxErrorKind::ExpectedTypePath))
    } else {
        let arg = if i + 1 < end && t[i] is Ident && t[i + 1] == TokenV::Punct('=') {
            type_end(t, i + 2, end)
        } else {
            type_end(t, i, end)
        };
        match arg {
            Ok(j) => if i < j < end {
                if t[j] == TokenV::Punct('>') {
                    Ok(j + 1)
                } else if t[j] == TokenV::Punct(',') {
                    if j + 1 < end && t[j + 1] == TokenV::Punct('>') {
                        Ok(j + 2)
                    } else {
                        args_end(t, j + 1, end)
                    }
                } else {
                    Err(err(SyntaxErrorKind::ExpectedTypePath))
                }
            } else {
                Err(err(SyntaxErrorKind::ExpectedTypePath))
            },
            Err(e) => Err(e),
        }
    }
}

/// A parse result as a mathematical value.
pub open spec fn res_view<T: DeepView>(r: Result<T, SyntaxError>) -> Result<T::V, SyntaxErrorV> {
    match r {
        Ok(v) => Ok(v.deep_view()),
        Err(e) => Err(e.deep_view()),
    }
}

/// A position result as a mathematical value.
pub open spec fn pos_view(r: Result<usize, SyntaxError>) -> Result<int, SyntaxErrorV> {
    match r {
        Ok(j) => Ok(j as int),
        Err(e) => Err(e.deep_view()),
    }
}

pub(crate) fn type_end_at(t: &Vec<Token>, i: usize, end: usize) -> (r: Result<usize, SyntaxError>)
    requires
        i <= end <= t@.len(),
    ensures
        pos_view(r) == type_end(t.deep_view(), i as int, end as int),
        r is Ok ==> i < r->Ok_0 <= end,
    decreases end - i, 5nat,
{
    let ghost tv = t.deep_view();
    if i >= end {
        return Err(fail(SyntaxErrorKind::ExpectedTypePath));
    }
    if is_tok_punct(t, i, end, '&') {
        if is_tok_ident(t, i + 1, end, "mut") {
            type_end_at(t, i + 2, end)
        } else {
            type_end_at(t, i + 1, end)
        }
    } else if is_tok_open(t, i, end, '(') || is_tok_open(t, i, end, '[') {
        let paren = is_tok_open(t, i, end, '(');
        match close_of(t, i + 1) {
            Some(m) => {
                if m >= end {
                    return Err(fail(SyntaxErrorKind::UnbalancedGroup));
                }
                let inner = if paren {
                    type_list_end_at(t, i + 1, m)
                } else {
                    type_end_at(t, i + 1, m)
                };
                match inner {
                    Ok(k) => {
                        if k == m {
                            Ok(m + 1)
                        } else {
                            Err(fail(SyntaxErrorKind::ExpectedTypePath))
                        }
                    },
                    Err(e) => Err(e),
                }
            },
            None => Err(fail(SyntaxErrorKind::UnbalancedGroup)),
        }
    } else {
        type_path_end_at(t, i, end)
    }
}

fn type_list_end_at(t: &Vec<Token>, i: usize, end: usize) -> (r: Result<usize, SyntaxError>)
    requires
        i <= end <= t@.len(),
    ensures
        pos_view(r) == type_list_end(t.deep_view(), i as int, end as int),
        r is Ok ==> r->Ok_0 == end,
    decreases end - i, 6nat,
{
    if i == end {
        return Ok(i);
    }
    match type_end_at(t, i, end) {
        Ok(j) => {
            if j == end {
                Ok(j)
            } else if is_tok_punct(t, j, end, ',') {
                type_list_end_at(t, j + 1, end)
            } else {
                Err(fail(SyntaxErrorKind::ExpectedTypePath))
            }
        },
        Err(e) => Err(e),
    }
}

pub(crate) fn type_path_end_at(t: &Vec<Token>, i: usize, end: usize) -> (r: Result<usize, SyntaxError>)
    requires
        i <= end <= t@.len(),
    ensures
        pos_view(r) == type_path_end(t.deep_view(), i as int, end as int),
        r is Ok ==> i < r->Ok_0 <= end,
    decreases end - i, 4nat,
{
    if i >= end {
        return Err(fail(SyntaxErrorKind::ExpectedTypePath));
    }
    if is_tok_punct(t, i, end, '<') {
        match type_end_at(t, i + 1, end) {
            Ok(j) => {
                if j >= end {
                    return Err(fail(SyntaxErrorKind::ExpectedTypePath));
                }
                let trait_end = if is_tok_ident(t, j, end, "as") {
                    path_end_at(t, j + 1, end)
                } else {
                    Ok(j)
                };
                match trait_end {
                    Ok(k) => {
                        if end - k > 1 && is_tok_punct(t, k, end, '>') && is_tok_sep(t, k + 1, end) {
                            segments_end_at(t, k + 2, end)
                        } else {
                            Err(fail(SyntaxErrorKind::ExpectedTypePath))
                        }
                    },
                    Err(e) => Err(e),
                }
            },
            Err(e) => Err(e),
        }
    } else {
        path_end_at(t, i, end)
    }
}

pub(crate) fn path_end_at(t: &Vec<Token>, i: usize, end: usize) -> (r: Result<usize, SyntaxError>)
    requires
        i <= end <= t@.len(),
    ensures
        pos_view(r) == path_end(t.deep_view(), i as int, end as int),
        r is Ok ==> i < r->Ok_0 <= end,
    decreases end - i, 3nat,
{
    if i >= end {
        return Err(fail(SyntaxErrorKind::ExpectedTypePath));
    }
    if is_tok_sep(t, i, end) {
        segments_end_at(t, i + 1, end)
    } else {
        segments_end_at(t, i, end)
    }
}

fn segments_end_at(t: &Vec<Token>, i: usize, end: usize) -> (r: Result<usize, SyntaxError>)
    requires
        i <= end <= t@.len(),
    ensures
        pos_view(r) == segments_end(t.deep_view(), i as int, end as int),
        r is Ok ==> i < r->Ok_0 <= end,
    decreases end - i, 2nat,
{
    if i >= end {
        return Err(fail(SyntaxErrorKind::ExpectedTypePath));
    }
    match segment_end_at(t, i, end) {
        Ok(j) => {
            if end - j > 1 && is_tok_sep(t, j, end) {
                segments_end_at(t, j + 1, end)
            } else {
                Ok(j)
            }
        },
        Err(e) => Err(e),
    }
}

pub(crate) fn segment_end_at(t: &Vec<Token>, i: usize, end: usize) -> (r: Result<usize, SyntaxError>)
    requires
        i <= end <= t@.len(),
    ensures
        pos_view(r) == segment_end(t.deep_view(), i as int, end as int),
        r is Ok ==> i < r->Ok_0 <= end,
    decreases end - i, 1nat,
{
    if i >= end {
        return Err(fail(SyntaxErrorKind::ExpectedTypePath));
    }
    let ok = match &t[i] {
        Token::Ident(s) => !keyword(s) || same_string(s, "super") || same_string(s, "self")
            || same_string(s, "crate") || same_string(s, "Self") || same_string(s, "try"),
        _ => false,
    };
    if !ok {
        return Err(fail(SyntaxErrorKind::ExpectedTypePath));
    }
    if is_tok_punct(t, i + 1, end, '<') {
        generic_args_end_at(t, i + 1, end)
    } else if end - i > 2 && is_tok_sep(t, i + 1, end) && is_tok_punct(t, i + 2, end, '<') {
        generic_args_end_at(t, i + 2, end)
    } else {
        Ok(i + 1)
    }
}

fn generic_args_end_at(t: &Vec<Token>, i: usize, end: usize) -> (r: Result<usize, SyntaxError>)
    requires
        i <= end <= t@.len(),
    ensures
        pos_view(r) == generic_args_end(t.deep_view(), i as int, end as int),
        r is Ok ==> i < r->Ok_0 <= end,
    decreases end - i, 0nat,
{
    if i >= end {
        return Err(fail(SyntaxErrorKind::ExpectedTypePath));
    }
    if is_tok_punct(t, i + 1, end, '>') {
        Ok(i + 2)
    } else {
        args_end_at(t, i + 1, end)
    }
}

fn args_end_at(t: &Vec<Token>, i: usize, end: usize) -> (r: Result<usize, SyntaxError>)
    requires
        i <= end <= t@.len(),
    ensures
        pos_view(r) == args_end(t.deep_view(), i as int, end as int),
        r is Ok ==> i < r->Ok_0 <= end,
    decreases end - i, 6nat,
{
    if i >= end {
        return Err(fail(SyntaxErrorKind::ExpectedTypePath));
    }
    let arg = if is_any_ident(t, i, end) && is_tok_punct(t, i + 1, end, '=') {
        type_end_at(t, i + 2, end)
    } else {
        type_end_at(t, i, end)
    };
    match arg {
        Ok(j) => {
            if j >= end {
                Err(fail(SyntaxErrorKind::ExpectedTypePath))
            } else if is_tok_punct(t, j, end, '>') {
                Ok(j + 1)
            } else if is_tok_punct(t, j, end, ',') {
                if is_tok_punct(t, j + 1, end, '>') {
                    Ok(j + 2)
                } else {
                    args_end_at(t, j + 1, end)
                }
            } else {
                Err(fail(SyntaxErrorKind::ExpectedTypePath))
            }
        },
        Err(e) => Err(e),
    }
}

// ---------------------------------------------------------------------------
// Rendering a token range the way a Rust token stream prints.

/// The printed text of one token.
pub open spec fn tok_text(x: TokenV) -> Seq<char> {
    match x {
        TokenV::Ident(s) => s,
        TokenV::Punct(c) => seq![c],
        TokenV::PathSep => seq![':', ':'],
        TokenV::Literal(s) => s,
        TokenV::Number(s) => s,
        TokenV::Open(c) => seq![c],
        TokenV::Close(c) => seq![c],
    }
}

/// Whether a space separates two adjacent printed tokens.
pub open spec fn spaced(a: TokenV, b: TokenV) -> bool {
    !(a is Open) && !(b is Close)
}

/// The printed text of the tokens in `[i, j)`: single spaces between tokens, none
/// just inside a delimiter.
pub open spec fn render(t: Seq<TokenV>, i: int, j: int) -> Seq<char>
    decreases j - i,
{
    if i < 0 || j > t.len() || j <= i {
        Seq::empty()
    } else if j == i + 1 {
        tok_text(t[i])
    } else {
        render(t, i, j - 1) + (if spaced(t[j - 2], t[j - 1]) {
            seq![' ']
        } else {
            Seq::empty()
        }) + tok_text(t[j - 1])
    }
}

fn push_tok_text(out: &mut String, x: &Token)
    ensures
        final(out)@ == old(out)@ + tok_text(x.deep_view()),
{
    match x {
        Token::Ident(s) => append(out, s.as_str()),
        Token::Punct(c) => push_char(out, *c),
        Token::PathSep => {
            push_char(out, ':');
            push_char(out, ':');
        },
        Token::Literal(s) => append(out, s.as_str()),
        Token::Number(s) => append(out, s.as_str()),
        Token::Open(c) => push_char(out, *c),
        Token::Close(c) => push_char(out, *c),
    }
    proof {
        assert(final(out)@ =~= old(out)@ + tok_text(x.deep_view()));
    }
}

/// Prints the tokens in `[i, j)`.
pub fn render_tokens(t: &Vec<Token>, i: usize, j: usize) -> (r: String)
    requires
        i < j <= t@.len(),
    ensures
        r@ == render(t.deep_view(), i as int, j as int),
{
    let ghost tv = t.deep_view();
    let mut out = String::new();
    push_tok_text(&mut out, &t[i]);
    proof {
        assert(out@ =~= render(tv, i as int, i + 1));
    }
    let mut k = i + 1;
    while k < j
        invariant
            i < k <= j <= t@.len(),
            tv == t.deep_view(),
            out@ == render(tv, i as int, k as int),
        decreases j - k,
    {
        let space = match (&t[k - 1], &t[k]) {
            (Token::Open(_), _) => false,
            (_, Token::Close(_)) => false,
            _ => true,
        };
        let ghost before = out@;
        if space {
            push_char(&mut out, ' ');
        }
        push_tok_text(&mut out, &t[k]);
        proof {
            assert(render(tv, i as int, k + 1) == render(tv, i as int, k as int) + (if spaced(
                tv[k - 1],
                tv[k as int],
            ) {
                seq![' ']
            } else {
                Seq::<char>::empty()
            }) + tok_text(tv[k as int]));
            assert(out@ =~= render(tv, i as int, k + 1));
        }
        k = k + 1;
    }
    out
}

} // verus!
