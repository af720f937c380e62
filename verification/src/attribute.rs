//! The directives of `#[specdrs(...)]`, `specdrs_span!` and `specdrs_module!`, and their grammar.
//!
//! ```text
//! args      := (directive ','?)*            directive := 'span' '(' span ')'
//!                                                      | 'in_spans' '(' (string ','?)+ ')'
//!                                                      | 'claims' '(' claims ')'
//! span      := field (',' field)* ','?      field := 'id' '=' string | 'parent' '=' string
//!                                                  | ('entry' | 'entrypoint') '=' type_path
//!                                                  | 'claims' '(' claims ')'
//! claims    := Objectives(kind)? Constraints(kind)? Assumptions(kind)?
//!              NotApplicable(axis '=' string, ...)? evidence(alias '(' link, ... ')', ...)?
//! kind      := axis '(' (string 'as' alias ','?)+ ')' ...
//! link      := ('Type' | 'Test' | 'Fuzz' | 'Proof' | 'Lint') '=' type_path
//! ```
use vstd::prelude::*;

use crate::lexer::{lex, lex_text, Token, TokenV};
use crate::model::{axis_name, evidence_kind_name, Axis, ClaimKind, EvidenceKind};
use crate::projection::{compare_strings, str_order};
use crate::syntax::{
    comma, comma_at, err, err_on, fail, fail_on, ident, ident_at, is_tok_ident, is_tok_punct,
    lit_str, lit_str_at, parens, parens_at, render, render_tokens, res_view, string_assignment,
    string_assignment_at, tok_is, type_path_end, type_path_end_at, SyntaxError, SyntaxErrorKind,
    SyntaxErrorV,
};
use crate::text::{same_string, strings_equal};

verus! {

// ---------------------------------------------------------------------------
// Parsed directives.

/// One evidence link of a claim.
#[derive(Debug)]
pub struct EvidenceArgs {
    pub kind: EvidenceKind,
    pub binder: String,
}

/// Mathematical value of [`EvidenceArgs`].
pub struct EvidenceArgsV {
    pub kind: EvidenceKind,
    pub binder: Seq<char>,
}

impl DeepView for EvidenceArgs {
    type V = EvidenceArgsV;

    open spec fn deep_view(&self) -> EvidenceArgsV {
        EvidenceArgsV { kind: self.kind, binder: self.binder@ }
    }
}

/// One axis declared not applicable, with its reason.
#[derive(Debug)]
pub struct NotApplicableArgs {
    pub axis: Axis,
    pub reason: String,
}

/// Mathematical value of [`NotApplicableArgs`].
pub struct NotApplicableArgsV {
    pub axis: Axis,
    pub reason: Seq<char>,
}

impl DeepView for NotApplicableArgs {
    type V = NotApplicableArgsV;

    open spec fn deep_view(&self) -> NotApplicableArgsV {
        NotApplicableArgsV { axis: self.axis, reason: self.reason@ }
    }
}

/// One parsed claim with its evidence.
#[derive(Debug)]
pub struct ClaimArgs {
    pub id: String,
    pub axis: Axis,
    pub kind: ClaimKind,
    pub text: String,
    pub evidence: Vec<EvidenceArgs>,
}

/// Mathematical value of [`ClaimArgs`].
pub struct ClaimArgsV {
    pub id: Seq<char>,
    pub axis: Axis,
    pub kind: ClaimKind,
    pub text: Seq<char>,
    pub evidence: Seq<EvidenceArgsV>,
}

impl DeepView for ClaimArgs {
    type V = ClaimArgsV;

    open spec fn deep_view(&self) -> ClaimArgsV {
        ClaimArgsV {
            id: self.id@,
            axis: self.axis,
            kind: self.kind,
            text: self.text@,
            evidence: self.evidence.deep_view(),
        }
    }
}

/// The claims and not-applicable axes of one owner.
#[derive(Debug)]
pub struct ClaimsArgs {
    pub claims: Vec<ClaimArgs>,
    pub not_applicable: Vec<NotApplicableArgs>,
}

/// Mathematical value of [`ClaimsArgs`].
pub struct ClaimsArgsV {
    pub claims: Seq<ClaimArgsV>,
    pub not_applicable: Seq<NotApplicableArgsV>,
}

impl DeepView for ClaimsArgs {
    type V = ClaimsArgsV;

    open spec fn deep_view(&self) -> ClaimsArgsV {
        ClaimsArgsV {
            claims: self.claims.deep_view(),
            not_applicable: self.not_applicable.deep_view(),
        }
    }
}

/// A span declaration.
#[derive(Debug)]
pub struct SpanArgs {
    pub id: String,
    pub parent: Option<String>,
    pub entry: Option<String>,
    pub claims: Option<ClaimsArgs>,
}

/// Mathematical value of [`SpanArgs`].
pub struct SpanArgsV {
    pub id: Seq<char>,
    pub parent: Option<Seq<char>>,
    pub entry: Option<Seq<char>>,
    pub claims: Option<ClaimsArgsV>,
}

impl DeepView for SpanArgs {
    type V = SpanArgsV;

    open spec fn deep_view(&self) -> SpanArgsV {
        SpanArgsV {
            id: self.id@,
            parent: self.parent.deep_view(),
            entry: self.entry.deep_view(),
            claims: self.claims.deep_view(),
        }
    }
}

/// One top-level directive.
#[derive(Debug)]
pub enum Directive {
    Span(SpanArgs),
    InSpans(Vec<String>),
    Claims(ClaimsArgs),
}

/// Mathematical value of a [`Directive`].
pub enum DirectiveV {
    Span(SpanArgsV),
    InSpans(Seq<Seq<char>>),
    Claims(ClaimsArgsV),
}

impl DeepView for Directive {
    type V = DirectiveV;

    open spec fn deep_view(&self) -> DirectiveV {
        match self {
            Directive::Span(s) => DirectiveV::Span(s.deep_view()),
            Directive::InSpans(ids) => DirectiveV::InSpans(ids.deep_view()),
            Directive::Claims(c) => DirectiveV::Claims(c.deep_view()),
        }
    }
}

/// Every directive of one attribute, in written order.
#[derive(Debug)]
pub struct SpecdrsArgs {
    pub directives: Vec<Directive>,
}

/// Mathematical value of [`SpecdrsArgs`].
pub struct SpecdrsArgsV {
    pub directives: Seq<DirectiveV>,
}

impl DeepView for SpecdrsArgs {
    type V = SpecdrsArgsV;

    open spec fn deep_view(&self) -> SpecdrsArgsV {
        SpecdrsArgsV { directives: self.directives.deep_view() }
    }
}

// ---------------------------------------------------------------------------
// Names.

/// The evidence kind with the given name.
pub open spec fn evidence_kind_named(name: Seq<char>) -> Option<EvidenceKind> {
    if name == evidence_kind_name(EvidenceKind::Type) {
        Some(EvidenceKind::Type)
    } else if name == evidence_kind_name(EvidenceKind::Test) {
        Some(EvidenceKind::Test)
    } else if name == evidence_kind_name(EvidenceKind::Fuzz) {
        Some(EvidenceKind::Fuzz)
    } else if name == evidence_kind_name(EvidenceKind::Proof) {
        Some(EvidenceKind::Proof)
    } else if name == evidence_kind_name(EvidenceKind::Lint) {
        Some(EvidenceKind::Lint)
    } else {
        None
    }
}

/// Reading an evidence kind's name gives that kind back, and a name reads as a kind only
/// when it is that kind's name: each of `Type`, `Test`, `Fuzz`, `Proof` and `Lint` names
/// its own kind.
pub proof fn lemma_evidence_kind_names(kind: EvidenceKind, name: Seq<char>)
    ensures
        evidence_kind_named(evidence_kind_name(kind)) == Some(kind),
        evidence_kind_named(name) matches Some(k) ==> evidence_kind_name(k) == name,
{
    assert(evidence_kind_name(EvidenceKind::Type) != evidence_kind_name(EvidenceKind::Test)) by {
        assert(evidence_kind_name(EvidenceKind::Type)[1] != evidence_kind_name(EvidenceKind::Test)[1]);
    }
    assert(evidence_kind_name(EvidenceKind::Type) != evidence_kind_name(EvidenceKind::Fuzz)) by {
        assert(evidence_kind_name(EvidenceKind::Type)[0] != evidence_kind_name(EvidenceKind::Fuzz)[0]);
    }
    assert(evidence_kind_name(EvidenceKind::Test) != evidence_kind_name(EvidenceKind::Fuzz)) by {
        assert(evidence_kind_name(EvidenceKind::Test)[0] != evidence_kind_name(EvidenceKind::Fuzz)[0]);
    }
    assert(evidence_kind_name(EvidenceKind::Proof).len() == 5);
    assert(evidence_kind_name(EvidenceKind::Lint) != evidence_kind_name(EvidenceKind::Type)) by {
        assert(evidence_kind_name(EvidenceKind::Lint)[0] != evidence_kind_name(EvidenceKind::Type)[0]);
    }
    assert(evidence_kind_name(EvidenceKind::Lint) != evidence_kind_name(EvidenceKind::Test)) by {
        assert(evidence_kind_name(EvidenceKind::Lint)[0] != evidence_kind_name(EvidenceKind::Test)[0]);
    }
    assert(evidence_kind_name(EvidenceKind::Lint) != evidence_kind_name(EvidenceKind::Fuzz)) by {
        assert(evidence_kind_name(EvidenceKind::Lint)[0] != evidence_kind_name(EvidenceKind::Fuzz)[0]);
    }
}

fn evidence_kind_of(name: &String) -> (r: Option<EvidenceKind>)
    ensures
        r == evidence_kind_named(name@),
{
    if strings_equal(name, &EvidenceKind::Type.name()) {
        Some(EvidenceKind::Type)
    } else if strings_equal(name, &EvidenceKind::Test.name()) {
        Some(EvidenceKind::Test)
    } else if strings_equal(name, &EvidenceKind::Fuzz.name()) {
        Some(EvidenceKind::Fuzz)
    } else if strings_equal(name, &EvidenceKind::Proof.name()) {
        Some(EvidenceKind::Proof)
    } else if strings_equal(name, &EvidenceKind::Lint.name()) {
        Some(EvidenceKind::Lint)
    } else {
        None
    }
}

/// The axis with the given name.
pub open spec fn axis_lookup(name: Seq<char>) -> Option<Axis> {
    if name == axis_name(Axis::Job) {
        Some(Axis::Job)
    } else if name == axis_name(Axis::Interface) {
        Some(Axis::Interface)
    } else if name == axis_name(Axis::Effects) {
        Some(Axis::Effects)
    } else if name == axis_name(Axis::Invariants) {
        Some(Axis::Invariants)
    } else if name == axis_name(Axis::Assumptions) {
        Some(Axis::Assumptions)
    } else if name == axis_name(Axis::State) {
        Some(Axis::State)
    } else if name == axis_name(Axis::Time) {
        Some(Axis::Time)
    } else if name == axis_name(Axis::Failure) {
        Some(Axis::Failure)
    } else if name == axis_name(Axis::Resources) {
        Some(Axis::Resources)
    } else if name == axis_name(Axis::Authority) {
        Some(Axis::Authority)
    } else if name == axis_name(Axis::Observation) {
        Some(Axis::Observation)
    } else if name == axis_name(Axis::Change) {
        Some(Axis::Change)
    } else {
        None
    }
}

/// Returns the axis with the given name (`Axis::from_str`).
pub fn axis_from_name(name: &String) -> (r: Option<Axis>)
    ensures
        r == axis_lookup(name@),
{
    if strings_equal(name, &Axis::Job.name()) {
        Some(Axis::Job)
    } else if strings_equal(name, &Axis::Interface.name()) {
        Some(Axis::Interface)
    } else if strings_equal(name, &Axis::Effects.name()) {
        Some(Axis::Effects)
    } else if strings_equal(name, &Axis::Invariants.name()) {
        Some(Axis::Invariants)
    } else if strings_equal(name, &Axis::Assumptions.name()) {
        Some(Axis::Assumptions)
    } else if strings_equal(name, &Axis::State.name()) {
        Some(Axis::State)
    } else if strings_equal(name, &Axis::Time.name()) {
        Some(Axis::Time)
    } else if strings_equal(name, &Axis::Failure.name()) {
        Some(Axis::Failure)
    } else if strings_equal(name, &Axis::Resources.name()) {
        Some(Axis::Resources)
    } else if strings_equal(name, &Axis::Authority.name()) {
        Some(Axis::Authority)
    } else if strings_equal(name, &Axis::Observation.name()) {
        Some(Axis::Observation)
    } else if strings_equal(name, &Axis::Change.name()) {
        Some(Axis::Change)
    } else {
        None
    }
}

/// Position of a claims group in the fixed group order, or -1.
pub open spec fn group_index(name: Seq<char>) -> int {
    if name == "Objectives"@ {
        0
    } else if name == "Constraints"@ {
        1
    } else if name == "Assumptions"@ {
        2
    } else if name == "NotApplicable"@ {
        3
    } else if name == "evidence"@ {
        4
    } else {
        -1
    }
}

fn group_index_of(name: &String) -> (r: Option<usize>)
    ensures
        match r {
            Some(g) => group_index(name@) == g && g < 5,
            None => group_index(name@) == -1,
        },
{
    if same_string(name, "Objectives") {
        Some(0)
    } else if same_string(name, "Constraints") {
        Some(1)
    } else if same_string(name, "Assumptions") {
        Some(2)
    } else if same_string(name, "NotApplicable") {
        Some(3)
    } else if same_string(name, "evidence") {
        Some(4)
    } else {
        None
    }
}

/// The claim kind of the kind group at an index.
pub open spec fn group_kind(g: int) -> ClaimKind {
    if g == 0 {
        ClaimKind::Objective
    } else if g == 1 {
        ClaimKind::Constraint
    } else {
        ClaimKind::Assumption
    }
}

// ---------------------------------------------------------------------------
// Grammar.

/// The type path at `i`, printed as a token stream prints.
pub open spec fn binder(t: Seq<TokenV>, i: int, end: int) -> Result<(Seq<char>, int), SyntaxErrorV> {
    match type_path_end(t, i, end) {
        Ok(j) => Ok((render(t, i, j), j)),
        Err(e) => Err(e),
    }
}

/// One evidence link `Kind = path`.
pub open spec fn evidence_link(t: Seq<TokenV>, i: int, end: int) -> Result<(EvidenceArgsV, int), SyntaxErrorV> {
    match ident(t, i, end) {
        Ok((name, j)) => match evidence_kind_named(name) {
            Some(kind) => if tok_is(t, j, end, TokenV::Punct('=')) {
                match binder(t, j + 1, end) {
                    Ok((b, k)) => Ok((EvidenceArgsV { kind, binder: b }, k)),
                    Err(e) => Err(e),
                }
            } else {
                Err(err(SyntaxErrorKind::ExpectedEq))
            },
            None => Err(err(SyntaxErrorKind::UnknownEvidenceKind)),
        },
        Err(e) => Err(e),
    }
}

/// The links of one evidence entry, after those already read (`acc`).
pub open spec fn evidence_links(t: Seq<TokenV>, i: int, end: int, acc: Seq<EvidenceArgsV>) -> Result<Seq<EvidenceArgsV>, SyntaxErrorV>
    decreases end - i,
{
    if i < 0 || end > t.len() || i >= end {
        Ok(acc)
    } else {
        match evidence_link(t, i, end) {
            Ok((link, j)) => if acc.contains(link) {
                Err(err(SyntaxErrorKind::DuplicateEvidenceLink))
            } else {
                match comma(t, j, end) {
                    Ok(k) => if i < k <= end {
                        evidence_links(t, k, end, acc.push(link))
                    } else {
                        Err(err(SyntaxErrorKind::ExpectedComma))
                    },
                    Err(e) => Err(e),
                }
            },
            Err(e) => Err(e),
        }
    }
}

/// Whether an entry list already has the alias.
pub open spec fn has_alias<T>(entries: Seq<(Seq<char>, T)>, alias: Seq<char>) -> bool {
    exists|k: int| 0 <= k < entries.len() && #[trigger] entries[k].0 == alias
}

/// The entries of an `evidence` group, after those already read (`acc`).
pub open spec fn evidence_entries(t: Seq<TokenV>, i: int, end: int, acc: Seq<(Seq<char>, Seq<EvidenceArgsV>)>) -> Result<Seq<(Seq<char>, Seq<EvidenceArgsV>)>, SyntaxErrorV>
    decreases end - i,
{
    if i < 0 || end > t.len() || i >= end {
        Ok(acc)
    } else {
        match ident(t, i, end) {
            Ok((alias, j)) => match parens(t, j, end) {
                Ok((a, m)) => if has_alias(acc, alias) {
                    Err(err(SyntaxErrorKind::DuplicateEvidenceAlias))
                } else {
                    match evidence_links(t, a, m, Seq::empty()) {
                        Ok(links) => if links.len() == 0 {
                            Err(err(SyntaxErrorKind::EmptyEvidenceAlias))
                        } else {
                            match comma(t, m + 1, end) {
                                Ok(k) => if i < k <= end {
                                    evidence_entries(t, k, end, acc.push((alias, links)))
                                } else {
                                    Err(err(SyntaxErrorKind::ExpectedComma))
                                },
                                Err(e) => Err(e),
                            }
                        },
                        Err(e) => Err(e),
                    }
                },
                Err(e) => Err(e),
            },
            Err(e) => Err(e),
        }
    }
}

/// The `evidence` group filling `[i, end)`.
pub open spec fn evidence_group(t: Seq<TokenV>, i: int, end: int) -> Result<Seq<(Seq<char>, Seq<EvidenceArgsV>)>, SyntaxErrorV> {
    match evidence_entries(t, i, end, Seq::empty()) {
        Ok(ev) => if ev.len() == 0 {
            Err(err(SyntaxErrorKind::EmptyEvidenceGroup))
        } else {
            Ok(ev)
        },
        Err(e) => Err(e),
    }
}

/// Whether a not-applicable list already has the axis.
pub open spec fn has_na_axis(acc: Seq<NotApplicableArgsV>, axis: Axis) -> bool {
    exists|k: int| 0 <= k < acc.len() && #[trigger] acc[k].axis == axis
}

/// The entries of a `NotApplicable` group, after those already read (`acc`).
pub open spec fn not_applicable_entries(t: Seq<TokenV>, i: int, end: int, acc: Seq<NotApplicableArgsV>) -> Result<Seq<NotApplicableArgsV>, SyntaxErrorV>
    decreases end - i,
{
    if i < 0 || end > t.len() || i >= end {
        Ok(acc)
    } else {
        match ident(t, i, end) {
            Ok((name, j)) => match axis_lookup(name) {
                Some(axis) => if has_na_axis(acc, axis) {
                    Err(err(SyntaxErrorKind::DuplicateNotApplicableAxis))
                } else {
                    match string_assignment(t, j, end, name) {
                        Ok((reason, k)) => match comma(t, k, end) {
                            Ok(m) => if i < m <= end {
                                not_applicable_entries(
                                    t,
                                    m,
                                    end,
                                    acc.push(NotApplicableArgsV { axis, reason }),
                                )
                            } else {
                                Err(err(SyntaxErrorKind::ExpectedComma))
                            },
                            Err(e) => Err(e),
                        },
                        Err(e) => Err(e),
                    }
                },
                None => Err(err_on(SyntaxErrorKind::UnknownAxis, name)),
            },
            Err(e) => Err(e),
        }
    }
}

/// The `NotApplicable` group filling `[i, end)`.
pub open spec fn not_applicable_group(t: Seq<TokenV>, i: int, end: int) -> Result<Seq<NotApplicableArgsV>, SyntaxErrorV> {
    match not_applicable_entries(t, i, end, Seq::empty()) {
        Ok(na) => if na.len() == 0 {
            Err(err(SyntaxErrorKind::EmptyNotApplicable))
        } else {
            Ok(na)
        },
        Err(e) => Err(e),
    }
}

/// The claims `"text" as alias` of one axis group, appended to `acc`.
pub open spec fn axis_claims(t: Seq<TokenV>, i: int, end: int, axis: Axis, kind: ClaimKind, acc: Seq<ClaimArgsV>) -> Result<Seq<ClaimArgsV>, SyntaxErrorV>
    decreases end - i,
{
    if i < 0 || end > t.len() || i >= end {
        Ok(acc)
    } else {
        match lit_str(t, i, end) {
            Ok((text, j)) => if tok_is(t, j, end, TokenV::Ident("as"@)) {
                match ident(t, j + 1, end) {
                    Ok((id, k)) => match comma(t, k, end) {
                        Ok(m) => if i < m <= end {
                            axis_claims(
                                t,
                                m,
                                end,
                                axis,
                                kind,
                                acc.push(ClaimArgsV { id, axis, kind, text, evidence: Seq::empty() }),
                            )
                        } else {
                            Err(err(SyntaxErrorKind::ExpectedComma))
                        },
                        Err(e) => Err(e),
                    },
                    Err(e) => Err(e),
                }
            } else {
                Err(err(SyntaxErrorKind::ExpectedAs))
            },
            Err(e) => Err(e),
        }
    }
}

/// The axis groups of one kind group, appended to `acc`; `seen` holds the axes read.
pub open spec fn kind_axes(t: Seq<TokenV>, i: int, end: int, kind: ClaimKind, seen: Seq<Axis>, acc: Seq<ClaimArgsV>) -> Result<Seq<ClaimArgsV>, SyntaxErrorV>
    decreases end - i,
{
    if i < 0 || end > t.len() || i >= end {
        Ok(acc)
    } else {
        match ident(t, i, end) {
            Ok((name, j)) => match axis_lookup(name) {
                Some(axis) => if seen.contains(axis) {
                    Err(err(SyntaxErrorKind::DuplicateAxisInKindGroup))
                } else {
                    match parens(t, j, end) {
                        Ok((a, m)) => if a == m {
                            Err(err(SyntaxErrorKind::EmptyAxisGroup))
                        } else {
                            match axis_claims(t, a, m, axis, kind, acc) {
                                Ok(acc2) => match comma(t, m + 1, end) {
                                    Ok(k) => if i < k <= end {
                                        kind_axes(t, k, end, kind, seen.push(axis), acc2)
                                    } else {
                                        Err(err(SyntaxErrorKind::ExpectedComma))
                                    },
                                    Err(e) => Err(e),
                                },
                                Err(e) => Err(e),
                            }
                        },
                        Err(e) => Err(e),
                    }
                },
                None => Err(err_on(SyntaxErrorKind::UnknownAxis, name)),
            },
            Err(e) => Err(e),
        }
    }
}

/// The kind group filling `[i, end)`, its claims appended to `acc`.
pub open spec fn kind_group(t: Seq<TokenV>, i: int, end: int, kind: ClaimKind, acc: Seq<ClaimArgsV>) -> Result<Seq<ClaimArgsV>, SyntaxErrorV> {
    match kind_axes(t, i, end, kind, Seq::empty(), acc) {
        Ok(r) => if r.len() == acc.len() {
            Err(err(SyntaxErrorKind::EmptyKindGroup))
        } else {
            Ok(r)
        },
        Err(e) => Err(e),
    }
}

/// The state of a claims block being read.
pub struct ClaimsDraftV {
    /// The index of the last group read (groups must not go back).
    pub stage: int,
    /// Which of the five groups were read.
    pub seen: Seq<bool>,
    /// Claims without their evidence, in written order.
    pub raw: Seq<ClaimArgsV>,
    pub na: Seq<NotApplicableArgsV>,
    /// Evidence entries by alias, in written order.
    pub ev: Seq<(Seq<char>, Seq<EvidenceArgsV>)>,
}

pub open spec fn initial_draft() -> ClaimsDraftV {
    ClaimsDraftV {
        stage: 0,
        seen: seq![false, false, false, false, false],
        raw: Seq::empty(),
        na: Seq::empty(),
        ev: Seq::empty(),
    }
}

/// The groups of a claims block from `i` on.
pub open spec fn claim_groups(t: Seq<TokenV>, i: int, end: int, d: ClaimsDraftV) -> Result<ClaimsDraftV, SyntaxErrorV>
    decreases end - i,
{
    if i < 0 || end > t.len() || i >= end {
        Ok(d)
    } else {
        match ident(t, i, end) {
            Ok((name, j)) => match parens(t, j, end) {
                Ok((a, m)) => {
                    let g = group_index(name);
                    if g < 0 {
                        Err(err(SyntaxErrorKind::UnknownClaimsGroup))
                    } else if g < d.stage {
                        Err(err(SyntaxErrorKind::ClaimsGroupOrder))
                    } else if d.seen[g] {
                        Err(err(SyntaxErrorKind::DuplicateClaimsGroup))
                    } else {
                        let seen = d.seen.update(g, true);
                        let next: Result<ClaimsDraftV, SyntaxErrorV> = if g <= 2 {
                            match kind_group(t, a, m, group_kind(g), d.raw) {
                                Ok(raw) => Ok(
                                    ClaimsDraftV { stage: g, seen, raw, na: d.na, ev: d.ev },
                                ),
                                Err(e) => Err(e),
                            }
                        } else if g == 3 {
                            match not_applicable_group(t, a, m) {
                                Ok(na) => Ok(
                                    ClaimsDraftV { stage: g, seen, raw: d.raw, na, ev: d.ev },
                                ),
                                Err(e) => Err(e),
                            }
                        } else {
                            match evidence_group(t, a, m) {
                                Ok(ev) => Ok(
                                    ClaimsDraftV { stage: g, seen, raw: d.raw, na: d.na, ev },
                                ),
                                Err(e) => Err(e),
                            }
                        };
                        match next {
                            Ok(d2) => match comma(t, m + 1, end) {
                                Ok(k) => if i < k <= end {
                                    claim_groups(t, k, end, d2)
                                } else {
                                    Err(err(SyntaxErrorKind::ExpectedComma))
                                },
                                Err(e) => Err(e),
                            },
                            Err(e) => Err(e),
                        }
                    }
                },
                Err(e) => Err(e),
            },
            Err(e) => Err(e),
        }
    }
}

/// Whether no two claims share an alias.
pub open spec fn aliases_unique(raw: Seq<ClaimArgsV>) -> bool {
    forall|a: int, b: int| 0 <= a < b < raw.len() ==> raw[a].id != raw[b].id
}

/// Whether some claim has the alias.
pub open spec fn claim_has_alias(raw: Seq<ClaimArgsV>, alias: Seq<char>) -> bool {
    exists|k: int| 0 <= k < raw.len() && #[trigger] raw[k].id == alias
}

/// Among the first `n` evidence aliases, the least (in string order) that names no claim.
pub open spec fn min_unknown_alias(ev: Seq<(Seq<char>, Seq<EvidenceArgsV>)>, raw: Seq<ClaimArgsV>, n: nat) -> Option<Seq<char>>
    decreases n,
{
    if n == 0 {
        None
    } else {
        let prev = min_unknown_alias(ev, raw, (n - 1) as nat);
        let a = ev[n - 1].0;
        if claim_has_alias(raw, a) {
            prev
        } else {
            match prev {
                None => Some(a),
                Some(p) => if str_order(a, p) < 0 {
                    Some(a)
                } else {
                    Some(p)
                },
            }
        }
    }
}

/// The links the evidence entries from position `k` on give an alias.
pub open spec fn links_from(ev: Seq<(Seq<char>, Seq<EvidenceArgsV>)>, alias: Seq<char>, k: int) -> Seq<EvidenceArgsV>
    decreases ev.len() - k,
{
    if k < 0 || k >= ev.len() {
        Seq::empty()
    } else if ev[k].0 == alias {
        ev[k].1
    } else {
        links_from(ev, alias, k + 1)
    }
}

/// The claims with their evidence attached.
pub open spec fn attach(raw: Seq<ClaimArgsV>, ev: Seq<(Seq<char>, Seq<EvidenceArgsV>)>) -> Seq<ClaimArgsV> {
    Seq::new(
        raw.len(),
        |k: int|
            ClaimArgsV {
                id: raw[k].id,
                axis: raw[k].axis,
                kind: raw[k].kind,
                text: raw[k].text,
                evidence: links_from(ev, raw[k].id, 0),
            },
    )
}

/// The claims block filling `[i, end)`.
pub open spec fn claims_block(t: Seq<TokenV>, i: int, end: int) -> Result<ClaimsArgsV, SyntaxErrorV> {
    match claim_groups(t, i, end, initial_draft()) {
        Ok(d) => if !aliases_unique(d.raw) {
            Err(err(SyntaxErrorKind::UniqueClaimAliases))
        } else {
            match min_unknown_alias(d.ev, d.raw, d.ev.len()) {
                Some(a) => Err(err_on(SyntaxErrorKind::UnknownEvidenceAlias, a)),
                None => Ok(ClaimsArgsV { claims: attach(d.raw, d.ev), not_applicable: d.na }),
            }
        },
        Err(e) => Err(e),
    }
}

/// The fields of a span declaration read so far.
pub struct SpanDraftV {
    pub id: Option<Seq<char>>,
    pub parent: Option<Seq<char>>,
    pub entry: Option<Seq<char>>,
    pub claims: Option<ClaimsArgsV>,
}

/// The fields of a span declaration from `i` on.
pub open spec fn span_fields(t: Seq<TokenV>, i: int, end: int, d: SpanDraftV) -> Result<SpanDraftV, SyntaxErrorV>
    decreases end - i,
{
    if i < 0 || end > t.len() || i >= end {
        Ok(d)
    } else {
        match ident(t, i, end) {
            Ok((name, j)) => {
                let step: Result<(SpanDraftV, int), SyntaxErrorV> = if name == "id"@ && d.id is None {
                    match string_assignment(t, j, end, name) {
                        Ok((v, k)) => Ok(
                            (
                                SpanDraftV {
                                    id: Some(v),
                                    parent: d.parent,
                                    entry: d.entry,
                                    claims: d.claims,
                                },
                                k,
                            ),
                        ),
                        Err(e) => Err(e),
                    }
                } else if name == "parent"@ && d.parent is None {
                    match string_assignment(t, j, end, name) {
                        Ok((v, k)) => Ok(
                            (
                                SpanDraftV {
                                    id: d.id,
                                    parent: Some(v),
                                    entry: d.entry,
                                    claims: d.claims,
                                },
                                k,
                            ),
                        ),
                        Err(e) => Err(e),
                    }
                } else if (name == "entry"@ || name == "entrypoint"@) && d.entry is None {
                    if tok_is(t, j, end, TokenV::Punct('=')) {
                        match binder(t, j + 1, end) {
                            Ok((b, k)) => Ok(
                                (
                                    SpanDraftV {
                                        id: d.id,
                                        parent: d.parent,
                                        entry: Some(b),
                                        claims: d.claims,
                                    },
                                    k,
                                ),
                            ),
                            Err(e) => Err(e),
                        }
                    } else {
                        Err(err(SyntaxErrorKind::ExpectedEq))
                    }
                } else if name == "claims"@ && d.claims is None {
                    match parens(t, j, end) {
                        Ok((a, m)) => match claims_block(t, a, m) {
                            Ok(c) => Ok(
                                (
                                    SpanDraftV {
                                        id: d.id,
                                        parent: d.parent,
                                        entry: d.entry,
                                        claims: Some(c),
                                    },
                                    m + 1,
                                ),
                            ),
                            Err(e) => Err(e),
                        },
                        Err(e) => Err(e),
                    }
                } else if name == "id"@ || name == "parent"@ || name == "entry"@ || name
                    == "entrypoint"@ || name == "claims"@ {
                    Err(err(SyntaxErrorKind::DuplicateSpanField))
                } else {
                    Err(err(SyntaxErrorKind::UnknownSpanField))
                };
                match step {
                    Ok((d2, k)) => match comma(t, k, end) {
                        Ok(m) => if i < m <= end {
                            span_fields(t, m, end, d2)
                        } else {
                            Err(err(SyntaxErrorKind::ExpectedComma))
                        },
                        Err(e) => Err(e),
                    },
                    Err(e) => Err(e),
                }
            },
            Err(e) => Err(e),
        }
    }
}

/// The span declaration filling `[i, end)`.
pub open spec fn span_args(t: Seq<TokenV>, i: int, end: int) -> Result<SpanArgsV, SyntaxErrorV> {
    match span_fields(t, i, end, SpanDraftV { id: None, parent: None, entry: None, claims: None }) {
        Ok(d) => match d.id {
            Some(id) => Ok(SpanArgsV { id, parent: d.parent, entry: d.entry, claims: d.claims }),
            None => Err(err(SyntaxErrorKind::SpanRequiresId)),
        },
        Err(e) => Err(e),
    }
}

/// The span ids of an `in_spans` list, after those already read.
pub open spec fn span_ids(t: Seq<TokenV>, i: int, end: int, acc: Seq<Seq<char>>) -> Result<Seq<Seq<char>>, SyntaxErrorV>
    decreases end - i,
{
    if i < 0 || end > t.len() || i >= end {
        Ok(acc)
    } else {
        match lit_str(t, i, end) {
            Ok((v, j)) => match comma(t, j, end) {
                Ok(k) => if i < k <= end {
                    span_ids(t, k, end, acc.push(v))
                } else {
                    Err(err(SyntaxErrorKind::ExpectedComma))
                },
                Err(e) => Err(e),
            },
            Err(e) => Err(e),
        }
    }
}

/// The `in_spans` list filling `[i, end)`.
pub open spec fn in_spans(t: Seq<TokenV>, i: int, end: int) -> Result<Seq<Seq<char>>, SyntaxErrorV> {
    match span_ids(t, i, end, Seq::empty()) {
        Ok(ids) => if ids.len() == 0 {
            Err(err(SyntaxErrorKind::EmptyInSpans))
        } else {
            Ok(ids)
        },
        Err(e) => Err(e),
    }
}

/// The directives from `i` on, after those already read.
pub open spec fn directives(t: Seq<TokenV>, i: int, end: int, acc: Seq<DirectiveV>) -> Result<Seq<DirectiveV>, SyntaxErrorV>
    decreases end - i,
{
    if i < 0 || end > t.len() || i >= end {
        Ok(acc)
    } else {
        match ident(t, i, end) {
            Ok((name, j)) => match parens(t, j, end) {
                Ok((a, m)) => {
                    let d: Result<DirectiveV, SyntaxErrorV> = if name == "span"@ {
                        match span_args(t, a, m) {
                            Ok(s) => Ok(DirectiveV::Span(s)),
                            Err(e) => Err(e),
                        }
                    } else if name == "in_spans"@ {
                        match in_spans(t, a, m) {
                            Ok(ids) => Ok(DirectiveV::InSpans(ids)),
                            Err(e) => Err(e),
                        }
                    } else if name == "claims"@ {
                        match claims_block(t, a, m) {
                            Ok(c) => Ok(DirectiveV::Claims(c)),
                            Err(e) => Err(e),
                        }
                    } else {
                        Err(err(SyntaxErrorKind::UnknownDirective))
                    };
                    match d {
                        Ok(dir) => match comma(t, m + 1, end) {
                            Ok(k) => if i < k <= end {
                                directives(t, k, end, acc.push(dir))
                            } else {
                                Err(err(SyntaxErrorKind::ExpectedComma))
                            },
                            Err(e) => Err(e),
                        },
                        Err(e) => Err(e),
                    }
                },
                Err(e) => Err(e),
            },
            Err(e) => Err(e),
        }
    }
}

/// The arguments of `#[specdrs(...)]` or `specdrs_module!(...)`, as argument text.
pub open spec fn specdrs_args_of(text: Seq<char>) -> Result<SpecdrsArgsV, SyntaxErrorV> {
    match lex(text) {
        Ok(t) => match directives(t, 0, t.len() as int, Seq::empty()) {
            Ok(ds) => Ok(SpecdrsArgsV { directives: ds }),
            Err(e) => Err(e),
        },
        Err(e) => Err(err(SyntaxErrorKind::Lex(e))),
    }
}

/// The arguments of `specdrs_span!(...)`, as argument text.
pub open spec fn span_args_of(text: Seq<char>) -> Result<SpanArgsV, SyntaxErrorV> {
    match lex(text) {
        Ok(t) => span_args(t, 0, t.len() as int),
        Err(e) => Err(err(SyntaxErrorKind::Lex(e))),
    }
}


// ---------------------------------------------------------------------------
// Structure of accepted claims blocks.

/// The display rank of a claim kind: objectives, constraints, assumptions.
pub open spec fn kind_position(kind: ClaimKind) -> int {
    match kind {
        ClaimKind::Objective => 0,
        ClaimKind::Constraint => 1,
        ClaimKind::Assumption => 2,
    }
}

/// Claims are listed objectives first, then constraints, then assumptions.
pub open spec fn kinds_ordered(cs: Seq<ClaimArgsV>) -> bool {
    forall|a: int, b: int| 0 <= a < b < cs.len() ==> kind_position(cs[a].kind) <= kind_position(cs[b].kind)
}

/// The claims of each kind-axis pair are adjacent: the pair forms one group.
pub open spec fn pairs_adjacent(cs: Seq<ClaimArgsV>) -> bool {
    forall|a: int, b: int, c: int|
        0 <= a < b < c < cs.len() && cs[a].kind == cs[c].kind && cs[a].axis == cs[c].axis
            ==> cs[b].kind == cs[a].kind && cs[b].axis == cs[a].axis
}

/// From position `n0` on, claims of one axis are adjacent.
pub open spec fn axes_adjacent_from(cs: Seq<ClaimArgsV>, n0: int) -> bool {
    forall|a: int, b: int, c: int|
        n0 <= a < b < c < cs.len() && cs[a].axis == cs[c].axis ==> cs[b].axis == cs[a].axis
}

proof fn lemma_axis_claims(t: Seq<TokenV>, i: int, end: int, axis: Axis, kind: ClaimKind, acc: Seq<ClaimArgsV>)
    requires
        axis_claims(t, i, end, axis, kind, acc) is Ok,
    ensures
        ({
            let r = axis_claims(t, i, end, axis, kind, acc)->Ok_0;
            &&& r.len() >= acc.len()
            &&& r.take(acc.len() as int) == acc
            &&& forall|k: int| acc.len() <= k < r.len() ==> #[trigger] r[k].axis == axis && r[k].kind == kind
        }),
    decreases end - i,
{
    let r = axis_claims(t, i, end, axis, kind, acc)->Ok_0;
    if i < 0 || end > t.len() || i >= end {
        assert(r.take(acc.len() as int) =~= acc);
    } else {
        let (text, j) = lit_str(t, i, end)->Ok_0;
        let (id, k) = ident(t, j + 1, end)->Ok_0;
        let m = comma(t, k, end)->Ok_0;
        let c = ClaimArgsV { id, axis, kind, text, evidence: Seq::empty() };
        lemma_axis_claims(t, m, end, axis, kind, acc.push(c));
        assert(r.take(acc.len() as int + 1) =~= acc.push(c));
        assert(r.take(acc.len() as int) =~= acc.push(c).take(acc.len() as int));
        assert(acc.push(c).take(acc.len() as int) =~= acc);
        assert forall|x: int| acc.len() <= x < r.len() implies #[trigger] r[x].axis == axis && r[x].kind == kind by {
            if x == acc.len() {
                assert(r.take(acc.len() as int + 1)[x] == c);
            }
        }
    }
}

proof fn lemma_kind_axes(t: Seq<TokenV>, i: int, end: int, kind: ClaimKind, seen: Seq<Axis>, acc: Seq<ClaimArgsV>, n0: int)
    requires
        kind_axes(t, i, end, kind, seen, acc) is Ok,
        0 <= n0 <= acc.len(),
        forall|k: int| n0 <= k < acc.len() ==> #[trigger] acc[k].kind == kind && seen.contains(acc[k].axis),
        axes_adjacent_from(acc, n0),
    ensures
        ({
            let r = kind_axes(t, i, end, kind, seen, acc)->Ok_0;
            &&& r.len() >= acc.len()
            &&& r.take(acc.len() as int) == acc
            &&& forall|k: int| n0 <= k < r.len() ==> #[trigger] r[k].kind == kind
            &&& axes_adjacent_from(r, n0)
        }),
    decreases end - i,
{
    let r = kind_axes(t, i, end, kind, seen, acc)->Ok_0;
    if i < 0 || end > t.len() || i >= end {
        assert(r.take(acc.len() as int) =~= acc);
    } else {
        let (name, j) = ident(t, i, end)->Ok_0;
        let x = axis_lookup(name)->Some_0;
        let (a, m) = parens(t, j, end)->Ok_0;
        lemma_axis_claims(t, a, m, x, kind, acc);
        let acc2 = axis_claims(t, a, m, x, kind, acc)->Ok_0;
        let k = comma(t, m + 1, end)->Ok_0;
        let seen2 = seen.push(x);
        assert forall|q: int| n0 <= q < acc2.len() implies #[trigger] acc2[q].kind == kind && seen2.contains(acc2[q].axis) by {
            if q < acc.len() {
                assert(acc2[q] == acc2.take(acc.len() as int)[q]);
                assert(seen.contains(acc[q].axis));
                let w = choose|w: int| 0 <= w < seen.len() && seen[w] == acc[q].axis;
                assert(seen2[w] == acc[q].axis);
            } else {
                assert(seen2[seen.len() as int] == x);
            }
        }
        assert forall|p: int, q: int, u: int|
            n0 <= p < q < u < acc2.len() && acc2[p].axis == acc2[u].axis implies acc2[q].axis == acc2[p].axis by {
            if u < acc.len() {
                assert(acc2[p] == acc2.take(acc.len() as int)[p]);
                assert(acc2[q] == acc2.take(acc.len() as int)[q]);
                assert(acc2[u] == acc2.take(acc.len() as int)[u]);
            } else if p >= acc.len() {
            } else {
                assert(acc2[p] == acc2.take(acc.len() as int)[p]);
                assert(seen.contains(acc[p].axis));
                assert(acc2[u].axis == x);
            }
        }
        lemma_kind_axes(t, k, end, kind, seen2, acc2, n0);
        assert(r.take(acc.len() as int) =~= r.take(acc2.len() as int).take(acc.len() as int));
    }
}

/// Invariant of a claims block being read.
pub open spec fn draft_ok(d: ClaimsDraftV) -> bool {
    &&& d.seen.len() == 5
    &&& 0 <= d.stage < 5
    &&& forall|k: int| 0 <= k < d.raw.len() ==> kind_position(#[trigger] d.raw[k].kind) <= d.stage
    &&& forall|k: int| 0 <= k < d.raw.len() ==> d.seen[kind_position(#[trigger] d.raw[k].kind)]
    &&& kinds_ordered(d.raw)
    &&& pairs_adjacent(d.raw)
}

proof fn lemma_kind_step(d: ClaimsDraftV, g: int, raw: Seq<ClaimArgsV>)
    requires
        draft_ok(d),
        0 <= g <= 2,
        d.stage <= g,
        !d.seen[g],
        raw.len() >= d.raw.len(),
        raw.take(d.raw.len() as int) == d.raw,
        forall|k: int| d.raw.len() <= k < raw.len() ==> #[trigger] raw[k].kind == group_kind(g),
        axes_adjacent_from(raw, d.raw.len() as int),
    ensures
        draft_ok(ClaimsDraftV { stage: g, seen: d.seen.update(g, true), raw, na: d.na, ev: d.ev }),
{
    let n0 = d.raw.len() as int;
    let seen = d.seen.update(g, true);
    assert(kind_position(group_kind(g)) == g);
    assert forall|q: int| 0 <= q < n0 implies #[trigger] raw[q] == d.raw[q] by {
        assert(raw[q] == raw.take(n0)[q]);
    }
    assert forall|q: int| 0 <= q < n0 implies kind_position(#[trigger] d.raw[q].kind) < g by {
        assert(d.seen[kind_position(d.raw[q].kind)]);
    }
    assert forall|q: int| 0 <= q < raw.len() implies kind_position(#[trigger] raw[q].kind) <= g by {
        if q < n0 {
            assert(raw[q] == d.raw[q]);
        }
    }
    assert forall|q: int| 0 <= q < raw.len() implies seen[kind_position(#[trigger] raw[q].kind)] by {
        if q < n0 {
            assert(raw[q] == d.raw[q]);
            assert(d.seen[kind_position(d.raw[q].kind)]);
        }
    }
    assert forall|p: int, q: int| 0 <= p < q < raw.len() implies kind_position(raw[p].kind) <= kind_position(raw[q].kind) by {
        if q < n0 {
            assert(raw[p] == d.raw[p] && raw[q] == d.raw[q]);
        } else if p < n0 {
            assert(raw[p] == d.raw[p]);
        }
    }
    assert forall|p: int, q: int, u: int|
        0 <= p < q < u < raw.len() && raw[p].kind == raw[u].kind && raw[p].axis == raw[u].axis
        implies raw[q].kind == raw[p].kind && raw[q].axis == raw[p].axis by {
        if u < n0 {
            assert(raw[p] == d.raw[p] && raw[q] == d.raw[q] && raw[u] == d.raw[u]);
        } else if p >= n0 {
        } else {
            assert(raw[p] == d.raw[p]);
            assert(kind_position(raw[p].kind) < g);
        }
    }
}

proof fn lemma_claim_groups(t: Seq<TokenV>, i: int, end: int, d: ClaimsDraftV)
    requires
        claim_groups(t, i, end, d) is Ok,
        draft_ok(d),
    ensures
        draft_ok(claim_groups(t, i, end, d)->Ok_0),
    decreases end - i,
{
    if !(i < 0 || end > t.len() || i >= end) {
        let (name, j) = ident(t, i, end)->Ok_0;
        let (a, m) = parens(t, j, end)->Ok_0;
        let g = group_index(name);
        let seen = d.seen.update(g, true);
        let k = comma(t, m + 1, end)->Ok_0;
        if g <= 2 {
            let kind = group_kind(g);
            lemma_kind_axes(t, a, m, kind, Seq::empty(), d.raw, d.raw.len() as int);
            let raw = kind_axes(t, a, m, kind, Seq::empty(), d.raw)->Ok_0;
            lemma_kind_step(d, g, raw);
            lemma_claim_groups(t, k, end, ClaimsDraftV { stage: g, seen, raw, na: d.na, ev: d.ev });
        } else if g == 3 {
            let na = not_applicable_group(t, a, m)->Ok_0;
            lemma_claim_groups(t, k, end, ClaimsDraftV { stage: g, seen, raw: d.raw, na, ev: d.ev });
        } else {
            let ev = evidence_group(t, a, m)->Ok_0;
            lemma_claim_groups(t, k, end, ClaimsDraftV { stage: g, seen, raw: d.raw, na: d.na, ev });
        }
    }
}

/// An accepted claims block lists objectives, then constraints, then assumptions; the
/// claims of each kind-axis pair form one contiguous group, in written order; and no two
/// claims share an alias.
pub proof fn lemma_claims_block_structure(t: Seq<TokenV>, i: int, end: int)
    requires
        claims_block(t, i, end) is Ok,
    ensures
        kinds_ordered(claims_block(t, i, end)->Ok_0.claims),
        pairs_adjacent(claims_block(t, i, end)->Ok_0.claims),
        aliases_unique(claims_block(t, i, end)->Ok_0.claims),
{
    let d0 = initial_draft();
    assert(draft_ok(d0));
    lemma_claim_groups(t, i, end, d0);
    let d = claim_groups(t, i, end, d0)->Ok_0;
    let cs = claims_block(t, i, end)->Ok_0.claims;
    assert(cs == attach(d.raw, d.ev));
    assert forall|k: int| 0 <= k < cs.len() implies #[trigger] cs[k].kind == d.raw[k].kind && cs[k].axis == d.raw[k].axis && cs[k].id == d.raw[k].id by {}
}

/// In an accepted claims block, each claim carries exactly the links its evidence entry
/// lists (none when the block has no entry for its alias), and every entry names a claim.
pub proof fn lemma_claims_block_evidence(t: Seq<TokenV>, i: int, end: int)
    requires
        claims_block(t, i, end) is Ok,
    ensures
        ({
            let d = claim_groups(t, i, end, initial_draft())->Ok_0;
            let cs = claims_block(t, i, end)->Ok_0.claims;
            &&& cs.len() == d.raw.len()
            &&& forall|k: int| 0 <= k < cs.len() ==> #[trigger] cs[k].evidence == links_from(d.ev, cs[k].id, 0)
            &&& forall|e: int| 0 <= e < d.ev.len() ==> claim_has_alias(cs, #[trigger] d.ev[e].0)
        }),
{
    let d = claim_groups(t, i, end, initial_draft())->Ok_0;
    let cs = claims_block(t, i, end)->Ok_0.claims;
    assert(min_unknown_alias(d.ev, d.raw, d.ev.len()) is None);
    assert forall|e: int| 0 <= e < d.ev.len() implies claim_has_alias(cs, #[trigger] d.ev[e].0) by {
        lemma_min_unknown_none(d.ev, d.raw, d.ev.len(), e);
        let k = choose|k: int| 0 <= k < d.raw.len() && #[trigger] d.raw[k].id == d.ev[e].0;
        assert(cs[k].id == d.raw[k].id);
    }
}

/// The structure every accepted claims block has.
pub open spec fn block_ok(c: ClaimsArgsV) -> bool {
    kinds_ordered(c.claims) && pairs_adjacent(c.claims) && aliases_unique(c.claims)
}

/// Every claims block a directive holds has the accepted structure.
pub open spec fn directive_ok(d: DirectiveV) -> bool {
    match d {
        DirectiveV::Claims(c) => block_ok(c),
        DirectiveV::Span(s) => s.claims is Some ==> block_ok(s.claims->Some_0),
        DirectiveV::InSpans(_) => true,
    }
}

proof fn lemma_span_fields(t: Seq<TokenV>, i: int, end: int, d: SpanDraftV)
    requires
        span_fields(t, i, end, d) is Ok,
        d.claims is Some ==> block_ok(d.claims->Some_0),
    ensures
        span_fields(t, i, end, d)->Ok_0.claims is Some ==> block_ok(span_fields(t, i, end, d)->Ok_0.claims->Some_0),
    decreases end - i,
{
    if !(i < 0 || end > t.len() || i >= end) {
        let (name, j) = ident(t, i, end)->Ok_0;
        if name == "id"@ && d.id is None {
            let (v, k) = string_assignment(t, j, end, name)->Ok_0;
            let m = comma(t, k, end)->Ok_0;
            lemma_span_fields(t, m, end, SpanDraftV { id: Some(v), parent: d.parent, entry: d.entry, claims: d.claims });
        } else if name == "parent"@ && d.parent is None {
            let (v, k) = string_assignment(t, j, end, name)->Ok_0;
            let m = comma(t, k, end)->Ok_0;
            lemma_span_fields(t, m, end, SpanDraftV { id: d.id, parent: Some(v), entry: d.entry, claims: d.claims });
        } else if (name == "entry"@ || name == "entrypoint"@) && d.entry is None {
            let (b, k) = binder(t, j + 1, end)->Ok_0;
            let m = comma(t, k, end)->Ok_0;
            lemma_span_fields(t, m, end, SpanDraftV { id: d.id, parent: d.parent, entry: Some(b), claims: d.claims });
        } else {
            let (a, m) = parens(t, j, end)->Ok_0;
            lemma_claims_block_structure(t, a, m);
            let c = claims_block(t, a, m)->Ok_0;
            let n = comma(t, m + 1, end)->Ok_0;
            lemma_span_fields(t, n, end, SpanDraftV { id: d.id, parent: d.parent, entry: d.entry, claims: Some(c) });
        }
    }
}

proof fn lemma_directives(t: Seq<TokenV>, i: int, end: int, acc: Seq<DirectiveV>)
    requires
        directives(t, i, end, acc) is Ok,
        forall|k: int| 0 <= k < acc.len() ==> directive_ok(#[trigger] acc[k]),
    ensures
        forall|k: int| 0 <= k < directives(t, i, end, acc)->Ok_0.len() ==> directive_ok(#[trigger] directives(t, i, end, acc)->Ok_0[k]),
    decreases end - i,
{
    if !(i < 0 || end > t.len() || i >= end) {
        let (name, j) = ident(t, i, end)->Ok_0;
        let (a, m) = parens(t, j, end)->Ok_0;
        let k = comma(t, m + 1, end)->Ok_0;
        let dir = if name == "span"@ {
            lemma_span_fields(t, a, m, SpanDraftV { id: None, parent: None, entry: None, claims: None });
            DirectiveV::Span(span_args(t, a, m)->Ok_0)
        } else if name == "in_spans"@ {
            DirectiveV::InSpans(in_spans(t, a, m)->Ok_0)
        } else {
            lemma_claims_block_structure(t, a, m);
            DirectiveV::Claims(claims_block(t, a, m)->Ok_0)
        };
        assert(directive_ok(dir));
        assert forall|q: int| 0 <= q < acc.push(dir).len() implies directive_ok(#[trigger] acc.push(dir)[q]) by {
            if q < acc.len() {
                assert(acc.push(dir)[q] == acc[q]);
            }
        }
        lemma_directives(t, k, end, acc.push(dir));
    }
}

/// Every claims block of accepted attribute arguments, top-level or inside a span
/// declaration, lists its claims in kind order with each kind-axis pair in one group and
/// unique aliases.
pub proof fn lemma_parsed_blocks(text: Seq<char>)
    requires
        specdrs_args_of(text) is Ok,
    ensures
        forall|k: int| 0 <= k < specdrs_args_of(text)->Ok_0.directives.len()
            ==> directive_ok(#[trigger] specdrs_args_of(text)->Ok_0.directives[k]),
{
    let t = lex(text)->Ok_0;
    lemma_directives(t, 0, t.len() as int, Seq::empty());
}

/// The claims block of an accepted `specdrs_span!` declaration has the same structure.
pub proof fn lemma_parsed_span_block(text: Seq<char>)
    requires
        span_args_of(text) is Ok,
        span_args_of(text)->Ok_0.claims is Some,
    ensures
        block_ok(span_args_of(text)->Ok_0.claims->Some_0),
{
    let t = lex(text)->Ok_0;
    lemma_span_fields(t, 0, t.len() as int, SpanDraftV { id: None, parent: None, entry: None, claims: None });
}

proof fn lemma_min_unknown_none(ev: Seq<(Seq<char>, Seq<EvidenceArgsV>)>, raw: Seq<ClaimArgsV>, n: nat, e: int)
    requires
        min_unknown_alias(ev, raw, n) is None,
        0 <= e < n <= ev.len(),
    ensures
        claim_has_alias(raw, ev[e].0),
    decreases n,
{
    let prev = min_unknown_alias(ev, raw, (n - 1) as nat);
    if e < n - 1 {
        if !claim_has_alias(raw, ev[n - 1].0) {
            match prev {
                None => {},
                Some(p) => {},
            }
        }
        lemma_min_unknown_none(ev, raw, (n - 1) as nat, e);
    }
}

// ---------------------------------------------------------------------------
// Parsers.

/// A parse step (value and next position) as a mathematical value.
pub open spec fn step_view<T: DeepView>(r: Result<(T, usize), SyntaxError>) -> Result<(T::V, int), SyntaxErrorV> {
    match r {
        Ok((v, j)) => Ok((v.deep_view(), j as int)),
        Err(e) => Err(e.deep_view()),
    }
}

pub(crate) fn copy_links(v: &Vec<EvidenceArgs>) -> (r: Vec<EvidenceArgs>)
    ensures
        r.deep_view() == v.deep_view(),
{
    let mut r: Vec<EvidenceArgs> = Vec::new();
    let mut k: usize = 0;
    while k < v.len()
        invariant
            k <= v.len(),
            r@.len() == k,
            forall|x: int| 0 <= x < k ==> #[trigger] r@[x].deep_view() == v@[x].deep_view(),
        decreases v.len() - k,
    {
        r.push(EvidenceArgs { kind: v[k].kind, binder: v[k].binder.clone() });
        k = k + 1;
    }
    assert(r.deep_view() =~= v.deep_view());
    r
}

fn binder_at(t: &Vec<Token>, i: usize, end: usize) -> (r: Result<(String, usize), SyntaxError>)
    requires
        i <= end <= t@.len(),
    ensures
        step_view(r) == binder(t.deep_view(), i as int, end as int),
        r is Ok ==> i < r->Ok_0.1 <= end,
{
    match type_path_end_at(t, i, end) {
        Ok(j) => Ok((render_tokens(t, i, j), j)),
        Err(e) => Err(e),
    }
}

fn evidence_link_at(t: &Vec<Token>, i: usize, end: usize) -> (r: Result<(EvidenceArgs, usize), SyntaxError>)
    requires
        i <= end <= t@.len(),
    ensures
        step_view(r) == evidence_link(t.deep_view(), i as int, end as int),
        r is Ok ==> i < r->Ok_0.1 <= end,
{
    match ident_at(t, i, end) {
        Ok(name) => match evidence_kind_of(&name) {
            Some(kind) => {
                if is_tok_punct(t, i + 1, end, '=') {
                    match binder_at(t, i + 2, end) {
                        Ok((b, k)) => Ok((EvidenceArgs { kind, binder: b }, k)),
                        Err(e) => Err(e),
                    }
                } else {
                    Err(fail(SyntaxErrorKind::ExpectedEq))
                }
            },
            None => Err(fail(SyntaxErrorKind::UnknownEvidenceKind)),
        },
        Err(e) => Err(e),
    }
}

fn has_link(acc: &Vec<EvidenceArgs>, link: &EvidenceArgs) -> (r: bool)
    ensures
        r == acc.deep_view().contains(link.deep_view()),
{
    let ghost av = acc.deep_view();
    let mut k: usize = 0;
    while k < acc.len()
        invariant
            k <= acc.len(),
            av == acc.deep_view(),
            forall|x: int| 0 <= x < k ==> av[x] != link.deep_view(),
        decreases acc.len() - k,
    {
        if acc[k].kind == link.kind && strings_equal(&acc[k].binder, &link.binder) {
            assert(av[k as int] == link.deep_view());
            return true;
        }
        k = k + 1;
    }
    false
}

fn evidence_links_at(t: &Vec<Token>, i: usize, end: usize) -> (r: Result<Vec<EvidenceArgs>, SyntaxError>)
    requires
        i <= end <= t@.len(),
    ensures
        res_view(r) == evidence_links(t.deep_view(), i as int, end as int, Seq::empty()),
{
    let ghost tv = t.deep_view();
    let mut acc: Vec<EvidenceArgs> = Vec::new();
    assert(acc.deep_view() =~= Seq::<EvidenceArgsV>::empty());
    let mut k = i;
    while k < end
        invariant
            i <= k <= end <= t@.len(),
            tv == t.deep_view(),
            evidence_links(tv, i as int, end as int, Seq::empty()) == evidence_links(
                tv,
                k as int,
                end as int,
                acc.deep_view(),
            ),
        decreases end - k,
    {
        match evidence_link_at(t, k, end) {
            Ok((link, j)) => {
                if has_link(&acc, &link) {
                    return Err(fail(SyntaxErrorKind::DuplicateEvidenceLink));
                }
                match comma_at(t, j, end) {
                    Ok(m) => {
                        let ghost before = acc.deep_view();
                        let ghost lv = link.deep_view();
                        acc.push(link);
                        assert(acc.deep_view() =~= before.push(lv));
                        k = m;
                    },
                    Err(e) => {
                        return Err(e);
                    },
                }
            },
            Err(e) => {
                return Err(e);
            },
        }
    }
    Ok(acc)
}

fn entries_have_alias(acc: &Vec<(String, Vec<EvidenceArgs>)>, alias: &String) -> (r: bool)
    ensures
        r == has_alias(acc.deep_view(), alias@),
{
    let ghost av = acc.deep_view();
    let mut k: usize = 0;
    while k < acc.len()
        invariant
            k <= acc.len(),
            av == acc.deep_view(),
            forall|x: int| 0 <= x < k ==> av[x].0 != alias@,
        decreases acc.len() - k,
    {
        if strings_equal(&acc[k].0, alias) {
            assert(av[k as int].0 == alias@);
            return true;
        }
        k = k + 1;
    }
    false
}

fn evidence_group_at(t: &Vec<Token>, i: usize, end: usize) -> (r: Result<Vec<(String, Vec<EvidenceArgs>)>, SyntaxError>)
    requires
        i <= end <= t@.len(),
    ensures
        res_view(r) == evidence_group(t.deep_view(), i as int, end as int),
{
    let ghost tv = t.deep_view();
    let mut acc: Vec<(String, Vec<EvidenceArgs>)> = Vec::new();
    assert(acc.deep_view() =~= Seq::<(Seq<char>, Seq<EvidenceArgsV>)>::empty());
    let mut k = i;
    while k < end
        invariant
            i <= k <= end <= t@.len(),
            tv == t.deep_view(),
            evidence_entries(tv, i as int, end as int, Seq::empty()) == evidence_entries(
                tv,
                k as int,
                end as int,
                acc.deep_view(),
            ),
        decreases end - k,
    {
        match ident_at(t, k, end) {
            Ok(alias) => match parens_at(t, k + 1, end) {
                Ok(m) => {
                    if entries_have_alias(&acc, &alias) {
                        return Err(fail(SyntaxErrorKind::DuplicateEvidenceAlias));
                    }
                    match evidence_links_at(t, k + 2, m) {
                        Ok(links) => {
                            if links.len() == 0 {
                                return Err(fail(SyntaxErrorKind::EmptyEvidenceAlias));
                            }
                            match comma_at(t, m + 1, end) {
                                Ok(n) => {
                                    let ghost before = acc.deep_view();
                                    let ghost entry = (alias@, links.deep_view());
                                    acc.push((alias, links));
                                    assert(acc.deep_view() =~= before.push(entry));
                                    k = n;
                                },
                                Err(e) => {
                                    return Err(e);
                                },
                            }
                        },
                        Err(e) => {
                            return Err(e);
                        },
                    }
                },
                Err(e) => {
                    return Err(e);
                },
            },
            Err(e) => {
                return Err(e);
            },
        }
    }
    if acc.len() == 0 {
        Err(fail(SyntaxErrorKind::EmptyEvidenceGroup))
    } else {
        Ok(acc)
    }
}

fn na_has_axis(acc: &Vec<NotApplicableArgs>, axis: Axis) -> (r: bool)
    ensures
        r == has_na_axis(acc.deep_view(), axis),
{
    let ghost av = acc.deep_view();
    let mut k: usize = 0;
    while k < acc.len()
        invariant
            k <= acc.len(),
            av == acc.deep_view(),
            forall|x: int| 0 <= x < k ==> av[x].axis != axis,
        decreases acc.len() - k,
    {
        if acc[k].axis == axis {
            assert(av[k as int].axis == axis);
            return true;
        }
        k = k + 1;
    }
    false
}

fn not_applicable_group_at(t: &Vec<Token>, i: usize, end: usize) -> (r: Result<Vec<NotApplicableArgs>, SyntaxError>)
    requires
        i <= end <= t@.len(),
    ensures
        res_view(r) == not_applicable_group(t.deep_view(), i as int, end as int),
{
    let ghost tv = t.deep_view();
    let mut acc: Vec<NotApplicableArgs> = Vec::new();
    assert(acc.deep_view() =~= Seq::<NotApplicableArgsV>::empty());
    let mut k = i;
    while k < end
        invariant
            i <= k <= end <= t@.len(),
            tv == t.deep_view(),
            not_applicable_entries(tv, i as int, end as int, Seq::empty())
                == not_applicable_entries(tv, k as int, end as int, acc.deep_view()),
        decreases end - k,
    {
        match ident_at(t, k, end) {
            Ok(name) => match axis_from_name(&name) {
                Some(axis) => {
                    if na_has_axis(&acc, axis) {
                        return Err(fail(SyntaxErrorKind::DuplicateNotApplicableAxis));
                    }
                    match string_assignment_at(t, k + 1, end, &name) {
                        Ok((reason, j)) => match comma_at(t, j, end) {
                            Ok(m) => {
                                let ghost before = acc.deep_view();
                                let ghost entry = NotApplicableArgsV { axis, reason: reason@ };
                                acc.push(NotApplicableArgs { axis, reason });
                                assert(acc.deep_view() =~= before.push(entry));
                                k = m;
                            },
                            Err(e) => {
                                return Err(e);
                            },
                        },
                        Err(e) => {
                            return Err(e);
                        },
                    }
                },
                None => {
                    return Err(fail_on(SyntaxErrorKind::UnknownAxis, &name));
                },
            },
            Err(e) => {
                return Err(e);
            },
        }
    }
    if acc.len() == 0 {
        Err(fail(SyntaxErrorKind::EmptyNotApplicable))
    } else {
        Ok(acc)
    }
}

fn axis_claims_at(
    t: &Vec<Token>,
    i: usize,
    end: usize,
    axis: Axis,
    kind: ClaimKind,
    acc_in: Vec<ClaimArgs>,
) -> (r: Result<Vec<ClaimArgs>, SyntaxError>)
    requires
        i <= end <= t@.len(),
    ensures
        res_view(r) == axis_claims(t.deep_view(), i as int, end as int, axis, kind, acc_in.deep_view()),
{
    let ghost tv = t.deep_view();
    let ghost acc0 = acc_in.deep_view();
    let mut acc = acc_in;
    let mut k = i;
    while k < end
        invariant
            i <= k <= end <= t@.len(),
            tv == t.deep_view(),
            acc0 == acc_in.deep_view(),
            axis_claims(tv, i as int, end as int, axis, kind, acc0) == axis_claims(
                tv,
                k as int,
                end as int,
                axis,
                kind,
                acc.deep_view(),
            ),
        decreases end - k,
    {
        match lit_str_at(t, k, end) {
            Ok(text) => {
                if !is_tok_ident(t, k + 1, end, "as") {
                    return Err(fail(SyntaxErrorKind::ExpectedAs));
                }
                match ident_at(t, k + 2, end) {
                    Ok(id) => match comma_at(t, k + 3, end) {
                        Ok(m) => {
                            let ghost before = acc.deep_view();
                            let evidence: Vec<EvidenceArgs> = Vec::new();
                            assert(evidence.deep_view() =~= Seq::<EvidenceArgsV>::empty());
                            let claim = ClaimArgs { id, axis, kind, text, evidence };
                            let ghost cv = claim.deep_view();
                            acc.push(claim);
                            assert(acc.deep_view() =~= before.push(cv));
                            k = m;
                        },
                        Err(e) => {
                            return Err(e);
                        },
                    },
                    Err(e) => {
                        return Err(e);
                    },
                }
            },
            Err(e) => {
                return Err(e);
            },
        }
    }
    Ok(acc)
}

fn axis_seen(seen: &Vec<Axis>, axis: Axis) -> (r: bool)
    ensures
        r == seen@.contains(axis),
{
    let mut k: usize = 0;
    while k < seen.len()
        invariant
            k <= seen.len(),
            forall|x: int| 0 <= x < k ==> seen@[x] != axis,
        decreases seen.len() - k,
    {
        if seen[k] == axis {
            assert(seen@[k as int] == axis);
            return true;
        }
        k = k + 1;
    }
    false
}

fn kind_group_at(t: &Vec<Token>, i: usize, end: usize, kind: ClaimKind, acc_in: Vec<ClaimArgs>) -> (r: Result<Vec<ClaimArgs>, SyntaxError>)
    requires
        i <= end <= t@.len(),
    ensures
        res_view(r) == kind_group(t.deep_view(), i as int, end as int, kind, acc_in.deep_view()),
{
    let ghost tv = t.deep_view();
    let ghost acc0 = acc_in.deep_view();
    let n0 = acc_in.len();
    let mut acc = acc_in;
    let mut seen: Vec<Axis> = Vec::new();
    let mut k = i;
    while k < end
        invariant
            i <= k <= end <= t@.len(),
            tv == t.deep_view(),
            n0 == acc0.len(),
            acc0 == acc_in.deep_view(),
            kind_axes(tv, i as int, end as int, kind, Seq::empty(), acc0) == kind_axes(
                tv,
                k as int,
                end as int,
                kind,
                seen@,
                acc.deep_view(),
            ),
        decreases end - k,
    {
        match ident_at(t, k, end) {
            Ok(name) => match axis_from_name(&name) {
                Some(axis) => {
                    if axis_seen(&seen, axis) {
                        return Err(fail(SyntaxErrorKind::DuplicateAxisInKindGroup));
                    }
                    match parens_at(t, k + 1, end) {
                        Ok(m) => {
                            if k + 2 == m {
                                return Err(fail(SyntaxErrorKind::EmptyAxisGroup));
                            }
                            match axis_claims_at(t, k + 2, m, axis, kind, acc) {
                                Ok(acc2) => match comma_at(t, m + 1, end) {
                                    Ok(n) => {
                                        seen.push(axis);
                                        acc = acc2;
                                        k = n;
                                    },
                                    Err(e) => {
                                        return Err(e);
                                    },
                                },
                                Err(e) => {
                                    return Err(e);
                                },
                            }
                        },
                        Err(e) => {
                            return Err(e);
                        },
                    }
                },
                None => {
                    return Err(fail_on(SyntaxErrorKind::UnknownAxis, &name));
                },
            },
            Err(e) => {
                return Err(e);
            },
        }
    }
    if acc.len() == n0 {
        Err(fail(SyntaxErrorKind::EmptyKindGroup))
    } else {
        Ok(acc)
    }
}

fn aliases_unique_at(raw: &Vec<ClaimArgs>) -> (r: bool)
    ensures
        r == aliases_unique(raw.deep_view()),
{
    let ghost rv = raw.deep_view();
    let mut a: usize = 0;
    while a < raw.len()
        invariant
            a <= raw.len(),
            rv == raw.deep_view(),
            forall|x: int, y: int| 0 <= x < a && x < y < rv.len() ==> rv[x].id != rv[y].id,
        decreases raw.len() - a,
    {
        let mut b: usize = a + 1;
        while b < raw.len()
            invariant
                a < raw.len(),
                a < b <= raw.len(),
                rv == raw.deep_view(),
                forall|x: int, y: int| 0 <= x < a && x < y < rv.len() ==> rv[x].id != rv[y].id,
                forall|y: int| a < y < b ==> rv[a as int].id != rv[y].id,
            decreases raw.len() - b,
        {
            if strings_equal(&raw[a].id, &raw[b].id) {
                assert(rv[a as int].id == rv[b as int].id);
                return false;
            }
            b = b + 1;
        }
        a = a + 1;
    }
    true
}

fn claim_alias_exists(raw: &Vec<ClaimArgs>, alias: &String) -> (r: bool)
    ensures
        r == claim_has_alias(raw.deep_view(), alias@),
{
    let ghost rv = raw.deep_view();
    let mut k: usize = 0;
    while k < raw.len()
        invariant
            k <= raw.len(),
            rv == raw.deep_view(),
            forall|x: int| 0 <= x < k ==> rv[x].id != alias@,
        decreases raw.len() - k,
    {
        if strings_equal(&raw[k].id, alias) {
            assert(rv[k as int].id == alias@);
            return true;
        }
        k = k + 1;
    }
    false
}

fn min_unknown_alias_at(ev: &Vec<(String, Vec<EvidenceArgs>)>, raw: &Vec<ClaimArgs>) -> (r: Option<String>)
    ensures
        r.deep_view() == min_unknown_alias(ev.deep_view(), raw.deep_view(), ev.deep_view().len()),
{
    let ghost evv = ev.deep_view();
    let mut best: Option<String> = None;
    let mut n: usize = 0;
    while n < ev.len()
        invariant
            n <= ev.len(),
            evv == ev.deep_view(),
            best.deep_view() == min_unknown_alias(evv, raw.deep_view(), n as nat),
        decreases ev.len() - n,
    {
        let a = &ev[n].0;
        if !claim_alias_exists(raw, a) {
            let replace = match &best {
                None => true,
                Some(p) => compare_strings(a.as_str(), p.as_str()) < 0,
            };
            if replace {
                best = Some(a.clone());
            }
        }
        n = n + 1;
    }
    best
}

fn links_for(ev: &Vec<(String, Vec<EvidenceArgs>)>, alias: &String) -> (r: Vec<EvidenceArgs>)
    ensures
        r.deep_view() == links_from(ev.deep_view(), alias@, 0),
{
    let ghost evv = ev.deep_view();
    let mut k: usize = 0;
    while k < ev.len()
        invariant
            k <= ev.len(),
            evv == ev.deep_view(),
            links_from(evv, alias@, 0) == links_from(evv, alias@, k as int),
        decreases ev.len() - k,
    {
        if strings_equal(&ev[k].0, alias) {
            return copy_links(&ev[k].1);
        }
        k = k + 1;
    }
    let r: Vec<EvidenceArgs> = Vec::new();
    assert(r.deep_view() =~= Seq::<EvidenceArgsV>::empty());
    r
}

fn attach_evidence(raw: &Vec<ClaimArgs>, ev: &Vec<(String, Vec<EvidenceArgs>)>) -> (r: Vec<ClaimArgs>)
    ensures
        r.deep_view() == attach(raw.deep_view(), ev.deep_view()),
{
    let ghost want = attach(raw.deep_view(), ev.deep_view());
    let mut out: Vec<ClaimArgs> = Vec::new();
    let mut k: usize = 0;
    while k < raw.len()
        invariant
            k <= raw.len(),
            want == attach(raw.deep_view(), ev.deep_view()),
            out@.len() == k,
            forall|x: int| 0 <= x < k ==> #[trigger] out@[x].deep_view() == want[x],
        decreases raw.len() - k,
    {
        let c = &raw[k];
        let evidence = links_for(ev, &c.id);
        out.push(
            ClaimArgs {
                id: c.id.clone(),
                axis: c.axis,
                kind: c.kind,
                text: c.text.clone(),
                evidence,
            },
        );
        k = k + 1;
    }
    assert(out.deep_view() =~= want);
    out
}

fn claims_block_at(t: &Vec<Token>, i: usize, end: usize) -> (r: Result<ClaimsArgs, SyntaxError>)
    requires
        i <= end <= t@.len(),
    ensures
        res_view(r) == claims_block(t.deep_view(), i as int, end as int),
{
    let ghost tv = t.deep_view();
    let mut stage: usize = 0;
    let mut seen: Vec<bool> = Vec::new();
    seen.push(false);
    seen.push(false);
    seen.push(false);
    seen.push(false);
    seen.push(false);
    let mut raw: Vec<ClaimArgs> = Vec::new();
    let mut na: Vec<NotApplicableArgs> = Vec::new();
    let mut ev: Vec<(String, Vec<EvidenceArgs>)> = Vec::new();
    assert(seen@ =~= seq![false, false, false, false, false]);
    assert(raw.deep_view() =~= Seq::<ClaimArgsV>::empty());
    assert(na.deep_view() =~= Seq::<NotApplicableArgsV>::empty());
    assert(ev.deep_view() =~= Seq::<(Seq<char>, Seq<EvidenceArgsV>)>::empty());
    let mut k = i;
    while k < end
        invariant
            i <= k <= end <= t@.len(),
            tv == t.deep_view(),
            seen@.len() == 5,
            stage < 5,
            claim_groups(tv, i as int, end as int, initial_draft()) == claim_groups(
                tv,
                k as int,
                end as int,
                ClaimsDraftV {
                    stage: stage as int,
                    seen: seen@,
                    raw: raw.deep_view(),
                    na: na.deep_view(),
                    ev: ev.deep_view(),
                },
            ),
        decreases end - k,
    {
        let name = match ident_at(t, k, end) {
            Ok(name) => name,
            Err(e) => {
                return Err(e);
            },
        };
        let m = match parens_at(t, k + 1, end) {
            Ok(m) => m,
            Err(e) => {
                return Err(e);
            },
        };
        let g = match group_index_of(&name) {
            Some(g) => g,
            None => {
                return Err(fail(SyntaxErrorKind::UnknownClaimsGroup));
            },
        };
        if g < stage {
            return Err(fail(SyntaxErrorKind::ClaimsGroupOrder));
        }
        if seen[g] {
            return Err(fail(SyntaxErrorKind::DuplicateClaimsGroup));
        }
        if g <= 2 {
            let kind = if g == 0 {
                ClaimKind::Objective
            } else if g == 1 {
                ClaimKind::Constraint
            } else {
                ClaimKind::Assumption
            };
            raw = match kind_group_at(t, k + 2, m, kind, raw) {
                Ok(r) => r,
                Err(e) => {
                    return Err(e);
                },
            };
        } else if g == 3 {
            na = match not_applicable_group_at(t, k + 2, m) {
                Ok(r) => r,
                Err(e) => {
                    return Err(e);
                },
            };
        } else {
            ev = match evidence_group_at(t, k + 2, m) {
                Ok(r) => r,
                Err(e) => {
                    return Err(e);
                },
            };
        }
        seen.set(g, true);
        stage = g;
        k = match comma_at(t, m + 1, end) {
            Ok(n) => n,
            Err(e) => {
                return Err(e);
            },
        };
    }
    if !aliases_unique_at(&raw) {
        return Err(fail(SyntaxErrorKind::UniqueClaimAliases));
    }
    match min_unknown_alias_at(&ev, &raw) {
        Some(a) => Err(fail_on(SyntaxErrorKind::UnknownEvidenceAlias, &a)),
        None => Ok(ClaimsArgs { claims: attach_evidence(&raw, &ev), not_applicable: na }),
    }
}

fn span_args_at(t: &Vec<Token>, i: usize, end: usize) -> (r: Result<SpanArgs, SyntaxError>)
    requires
        i <= end <= t@.len(),
    ensures
        res_view(r) == span_args(t.deep_view(), i as int, end as int),
{
    let ghost tv = t.deep_view();
    let mut id: Option<String> = None;
    let mut parent: Option<String> = None;
    let mut entry: Option<String> = None;
    let mut claims: Option<ClaimsArgs> = None;
    let mut k = i;
    while k < end
        invariant
            i <= k <= end <= t@.len(),
            tv == t.deep_view(),
            span_fields(tv, i as int, end as int, SpanDraftV { id: None, parent: None, entry: None, claims: None })
                == span_fields(
                tv,
                k as int,
                end as int,
                SpanDraftV {
                    id: id.deep_view(),
                    parent: parent.deep_view(),
                    entry: entry.deep_view(),
                    claims: claims.deep_view(),
                },
            ),
        decreases end - k,
    {
        let name = match ident_at(t, k, end) {
            Ok(name) => name,
            Err(e) => {
                return Err(e);
            },
        };
        let next: usize;
        if same_string(&name, "id") && id.is_none() {
            match string_assignment_at(t, k + 1, end, &name) {
                Ok((v, j)) => {
                    id = Some(v);
                    next = j;
                },
                Err(e) => {
                    return Err(e);
                },
            }
        } else if same_string(&name, "parent") && parent.is_none() {
            match string_assignment_at(t, k + 1, end, &name) {
                Ok((v, j)) => {
                    parent = Some(v);
                    next = j;
                },
                Err(e) => {
                    return Err(e);
                },
            }
        } else if (same_string(&name, "entry") || same_string(&name, "entrypoint")) && entry.is_none() {
            if !is_tok_punct(t, k + 1, end, '=') {
                return Err(fail(SyntaxErrorKind::ExpectedEq));
            }
            match binder_at(t, k + 2, end) {
                Ok((b, j)) => {
                    entry = Some(b);
                    next = j;
                },
                Err(e) => {
                    return Err(e);
                },
            }
        } else if same_string(&name, "claims") && claims.is_none() {
            let m = match parens_at(t, k + 1, end) {
                Ok(m) => m,
                Err(e) => {
                    return Err(e);
                },
            };
            match claims_block_at(t, k + 2, m) {
                Ok(c) => {
                    claims = Some(c);
                    next = m + 1;
                },
                Err(e) => {
                    return Err(e);
                },
            }
        } else if same_string(&name, "id") || same_string(&name, "parent") || same_string(
            &name,
            "entry",
        ) || same_string(&name, "entrypoint") || same_string(&name, "claims") {
            return Err(fail(SyntaxErrorKind::DuplicateSpanField));
        } else {
            return Err(fail(SyntaxErrorKind::UnknownSpanField));
        }
        k = match comma_at(t, next, end) {
            Ok(n) => n,
            Err(e) => {
                return Err(e);
            },
        };
    }
    match id {
        Some(id) => Ok(SpanArgs { id, parent, entry, claims }),
        None => Err(fail(SyntaxErrorKind::SpanRequiresId)),
    }
}

fn in_spans_at(t: &Vec<Token>, i: usize, end: usize) -> (r: Result<Vec<String>, SyntaxError>)
    requires
        i <= end <= t@.len(),
    ensures
        res_view(r) == in_spans(t.deep_view(), i as int, end as int),
{
    let ghost tv = t.deep_view();
    let mut acc: Vec<String> = Vec::new();
    assert(acc.deep_view() =~= Seq::<Seq<char>>::empty());
    let mut k = i;
    while k < end
        invariant
            i <= k <= end <= t@.len(),
            tv == t.deep_view(),
            span_ids(tv, i as int, end as int, Seq::empty()) == span_ids(
                tv,
                k as int,
                end as int,
                acc.deep_view(),
            ),
        decreases end - k,
    {
        match lit_str_at(t, k, end) {
            Ok(v) => match comma_at(t, k + 1, end) {
                Ok(n) => {
                    let ghost before = acc.deep_view();
                    let ghost vv = v@;
                    acc.push(v);
                    assert(acc.deep_view() =~= before.push(vv));
                    k = n;
                },
                Err(e) => {
                    return Err(e);
                },
            },
            Err(e) => {
                return Err(e);
            },
        }
    }
    if acc.len() == 0 {
        Err(fail(SyntaxErrorKind::EmptyInSpans))
    } else {
        Ok(acc)
    }
}

fn directives_at(t: &Vec<Token>, i: usize, end: usize) -> (r: Result<Vec<Directive>, SyntaxError>)
    requires
        i <= end <= t@.len(),
    ensures
        res_view(r) == directives(t.deep_view(), i as int, end as int, Seq::empty()),
{
    let ghost tv = t.deep_view();
    let mut acc: Vec<Directive> = Vec::new();
    assert(acc.deep_view() =~= Seq::<DirectiveV>::empty());
    let mut k = i;
    while k < end
        invariant
            i <= k <= end <= t@.len(),
            tv == t.deep_view(),
            directives(tv, i as int, end as int, Seq::empty()) == directives(
                tv,
                k as int,
                end as int,
                acc.deep_view(),
            ),
        decreases end - k,
    {
        let name = match ident_at(t, k, end) {
            Ok(name) => name,
            Err(e) => {
                return Err(e);
            },
        };
        let m = match parens_at(t, k + 1, end) {
            Ok(m) => m,
            Err(e) => {
                return Err(e);
            },
        };
        let d = if same_string(&name, "span") {
            match span_args_at(t, k + 2, m) {
                Ok(s) => Directive::Span(s),
                Err(e) => {
                    return Err(e);
                },
            }
        } else if same_string(&name, "in_spans") {
            match in_spans_at(t, k + 2, m) {
                Ok(ids) => Directive::InSpans(ids),
                Err(e) => {
                    return Err(e);
                },
            }
        } else if same_string(&name, "claims") {
            match claims_block_at(t, k + 2, m) {
                Ok(c) => Directive::Claims(c),
                Err(e) => {
                    return Err(e);
                },
            }
        } else {
            return Err(fail(SyntaxErrorKind::UnknownDirective));
        };
        match comma_at(t, m + 1, end) {
            Ok(n) => {
                let ghost before = acc.deep_view();
                let ghost dv = d.deep_view();
                acc.push(d);
                assert(acc.deep_view() =~= before.push(dv));
                k = n;
            },
            Err(e) => {
                return Err(e);
            },
        }
    }
    Ok(acc)
}

/// Parses the argument text of `#[specdrs(...)]` (also that of `specdrs_module!(...)`).
pub fn parse_specdrs_args(text: &str) -> (r: Result<SpecdrsArgs, SyntaxError>)
    ensures
        res_view(r) == specdrs_args_of(text@),
{
    match lex_text(text) {
        Ok(t) => match directives_at(&t, 0, t.len()) {
            Ok(ds) => Ok(SpecdrsArgs { directives: ds }),
            Err(e) => Err(e),
        },
        Err(e) => Err(fail(SyntaxErrorKind::Lex(e))),
    }
}

/// Parses the argument text of `specdrs_span!(...)`: one span declaration.
pub fn parse_span_args(text: &str) -> (r: Result<SpanArgs, SyntaxError>)
    ensures
        res_view(r) == span_args_of(text@),
{
    match lex_text(text) {
        Ok(t) => span_args_at(&t, 0, t.len()),
        Err(e) => Err(fail(SyntaxErrorKind::Lex(e))),
    }
}

} // verus!
