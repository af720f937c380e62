//! The rustdoc section that `#[specdrs(...)]` appends to its item, and the
//! checks the attribute and function-like macros make before expanding.
use vstd::prelude::*;

use crate::attribute::{
    ClaimArgs, ClaimArgsV, ClaimsArgs, ClaimsArgsV, Directive, DirectiveV, EvidenceArgs,
    EvidenceArgsV, SpanArgs, SpanArgsV, SpecdrsArgs, SpecdrsArgsV,
};
use crate::model::{axis_name, evidence_kind_name, kind_name};
use crate::syntax::{
    impl_cannot_own_claims, impl_claims_message, module_message, span_entry_message,
    specdrs_module_requires_in_spans, specdrs_span_requires_entrypoint,
};
use crate::text::{append, chars_of, push_char, string_from_chars, strings_equal};

verus! {

// ---------------------------------------------------------------------------
// Text replacement.

/// Whether `p` occurs in `s` at position `i`.
pub open spec fn starts_at(s: Seq<char>, i: int, p: Seq<char>) -> bool {
    0 <= i && i + p.len() <= s.len() && s.subrange(i, i + p.len()) == p
}

/// `s` with every non-overlapping occurrence of `from`, scanning left to right,
/// replaced by `to` (`str::replace`).
pub open spec fn replace_all(s: Seq<char>, from: Seq<char>, to: Seq<char>) -> Seq<char>
    decreases s.len(),
{
    if from.len() == 0 || s.len() == 0 {
        s
    } else if starts_at(s, 0, from) {
        to + replace_all(s.skip(from.len() as int), from, to)
    } else {
        seq![s[0]] + replace_all(s.skip(1), from, to)
    }
}

pub(crate) fn occurs_at(s: &Vec<char>, i: usize, p: &Vec<char>) -> (r: bool)
    requires
        i <= s@.len(),
    ensures
        r == starts_at(s@, i as int, p@),
{
    if p.len() > s.len() - i {
        return false;
    }
    let mut k: usize = 0;
    while k < p.len()
        invariant
            i + p.len() <= s.len(),
            k <= p@.len(),
            forall|x: int| 0 <= x < k ==> s@[i + x] == p@[x],
        decreases p@.len() - k,
    {
        if s[i + k] != p[k] {
            assert(s@.subrange(i as int, i + p@.len())[k as int] != p@[k as int]);
            return false;
        }
        k = k + 1;
    }
    assert(s@.subrange(i as int, i + p@.len()) =~= p@);
    true
}

/// Returns `s` with every occurrence of `from` replaced by `to`.
pub fn replace_text(s: &str, from: &str, to: &str) -> (r: String)
    requires
        from@.len() > 0,
    ensures
        r@ == replace_all(s@, from@, to@),
{
    let sv = chars_of(s);
    let fv = chars_of(from);
    let mut out = String::new();
    let mut i: usize = 0;
    assert(s@.skip(0) =~= s@);
    while i < sv.len()
        invariant
            i <= sv@.len(),
            sv@ == s@,
            fv@ == from@,
            from@.len() > 0,
            out@ + replace_all(s@.skip(i as int), from@, to@) == replace_all(s@, from@, to@),
        decreases sv@.len() - i,
    {
        let ghost rest = s@.skip(i as int);
        if occurs_at(&sv, i, &fv) {
            proof {
                assert(rest.subrange(0, from@.len() as int) =~= s@.subrange(
                    i as int,
                    i + from@.len(),
                ));
                assert(rest.skip(from@.len() as int) =~= s@.skip(i + from@.len()));
            }
            let ghost before = out@;
            append(&mut out, to);
            i = i + fv.len();
            proof {
                assert(before + (to@ + replace_all(s@.skip(i as int), from@, to@)) =~= out@
                    + replace_all(s@.skip(i as int), from@, to@));
            }
        } else {
            proof {
                if rest.len() >= from@.len() {
                    assert(rest.subrange(0, from@.len() as int) =~= s@.subrange(
                        i as int,
                        i + from@.len(),
                    ));
                }
                assert(rest.skip(1) =~= s@.skip(i + 1));
            }
            let ghost before = out@;
            push_char(&mut out, sv[i]);
            i = i + 1;
            proof {
                assert(before + (seq![rest[0]] + replace_all(s@.skip(i as int), from@, to@))
                    =~= out@ + replace_all(s@.skip(i as int), from@, to@));
            }
        }
    }
    proof {
        assert(s@.skip(i as int) =~= Seq::<char>::empty());
        assert(out@ + Seq::<char>::empty() =~= out@);
    }
    out
}

/// Token-stream spacing made readable: the replacements applied to a printed signature
/// or path, in order.
pub open spec fn tidy_tokens(s: Seq<char>) -> Seq<char> {
    let s = replace_all(s, " :: "@, "::"@);
    let s = replace_all(s, " < "@, "<"@);
    let s = replace_all(s, " >"@, ">"@);
    let s = replace_all(s, " ("@, "("@);
    let s = replace_all(s, " )"@, ")"@);
    let s = replace_all(s, " ["@, "["@);
    let s = replace_all(s, " ]"@, "]"@);
    let s = replace_all(s, " ,"@, ","@);
    let s = replace_all(s, " :"@, ":"@);
    replace_all(s, "& "@, "&"@)
}

/// Normalizes token-stream spacing in a rendered Rust signature.
pub fn clean_signature(signature: &str) -> (r: String)
    ensures
        r@ == tidy_tokens(signature@),
{
    proof {
        reveal_strlit(" :: ");
        reveal_strlit(" < ");
        reveal_strlit(" >");
        reveal_strlit(" (");
        reveal_strlit(" )");
        reveal_strlit(" [");
        reveal_strlit(" ]");
        reveal_strlit(" ,");
        reveal_strlit(" :");
        reveal_strlit("& ");
    }
    let s = replace_text(signature, " :: ", "::");
    let s = replace_text(s.as_str(), " < ", "<");
    let s = replace_text(s.as_str(), " >", ">");
    let s = replace_text(s.as_str(), " (", "(");
    let s = replace_text(s.as_str(), " )", ")");
    let s = replace_text(s.as_str(), " [", "[");
    let s = replace_text(s.as_str(), " ]", "]");
    let s = replace_text(s.as_str(), " ,", ",");
    let s = replace_text(s.as_str(), " :", ":");
    replace_text(s.as_str(), "& ", "&")
}

/// Makes a printed evidence binder readable (the same spacing rules as signatures).
pub fn format_rust_tokens(value: &str) -> (r: String)
    ensures
        r@ == tidy_tokens(value@),
{
    clean_signature(value)
}

/// Escapes backticks for an inline code span.
pub open spec fn code_escape(s: Seq<char>) -> Seq<char> {
    replace_all(s, "`"@, "\\`"@)
}

/// Escapes backticks for an inline code span.
pub fn escape_code(value: &str) -> (r: String)
    ensures
        r@ == code_escape(value@),
{
    proof {
        reveal_strlit("`");
    }
    replace_text(value, "`", "\\`")
}

// ---------------------------------------------------------------------------
// Rendering.

/// Ids as a comma-separated list of code spans.
pub open spec fn ids_text(ids: Seq<Seq<char>>) -> Seq<char>
    decreases ids.len(),
{
    if ids.len() == 0 {
        Seq::empty()
    } else if ids.len() == 1 {
        "`"@ + code_escape(ids[0]) + "`"@
    } else {
        ids_text(ids.drop_last()) + ", `"@ + code_escape(ids.last()) + "`"@
    }
}

/// Renders ids as a comma-separated list of code spans.
pub fn format_ids(ids: &Vec<String>) -> (r: String)
    ensures
        r@ == ids_text(ids.deep_view()),
{
    let ghost iv = ids.deep_view();
    let mut out = String::new();
    let mut k: usize = 0;
    while k < ids.len()
        invariant
            k <= ids.len(),
            iv == ids.deep_view(),
            out@ == ids_text(iv.take(k as int)),
        decreases ids.len() - k,
    {
        let ghost before = out@;
        if k == 0 {
            append(&mut out, "`");
        } else {
            append(&mut out, ", `");
        }
        let escaped = escape_code(ids[k].as_str());
        append(&mut out, escaped.as_str());
        append(&mut out, "`");
        proof {
            let next = iv.take(k + 1);
            assert(next.drop_last() =~= iv.take(k as int));
            assert(next.last() == iv[k as int]);
            if k == 0 {
                assert(out@ =~= "`"@ + code_escape(next[0]) + "`"@);
            } else {
                assert(out@ =~= ids_text(next.drop_last()) + ", `"@ + code_escape(next.last()) + "`"@);
            }
        }
        k = k + 1;
    }
    assert(iv.take(k as int) =~= iv);
    out
}

/// The evidence lines of a claim's first `n` links.
pub open spec fn evidence_lines(ev: Seq<EvidenceArgsV>, n: nat) -> Seq<char>
    decreases n,
{
    if n == 0 || n > ev.len() {
        Seq::empty()
    } else {
        evidence_lines(ev, (n - 1) as nat) + "  - Evidence: `"@ + evidence_kind_name(ev[n - 1].kind)
            + " = "@ + code_escape(tidy_tokens(ev[n - 1].binder)) + "`\n"@
    }
}

/// The bullet of one claim with its evidence.
pub open spec fn claim_text(c: ClaimArgsV) -> Seq<char> {
    "- "@ + replace_all(c.text, "\n"@, "\n  "@) + "\n"@ + evidence_lines(c.evidence, c.evidence.len())
        + "\n"@
}

/// Appends the bullet of one claim with its evidence.
pub fn render_claim(output: &mut String, claim: &ClaimArgs)
    ensures
        final(output)@ == old(output)@ + claim_text(claim.deep_view()),
{
    let ghost start = output@;
    let ghost cv = claim.deep_view();
    proof {
        reveal_strlit("\n");
    }
    append(output, "- ");
    let text = replace_text(claim.text.as_str(), "\n", "\n  ");
    append(output, text.as_str());
    append(output, "\n");
    let ghost head = output@;
    let mut k: usize = 0;
    while k < claim.evidence.len()
        invariant
            k <= claim.evidence.len(),
            cv == claim.deep_view(),
            output@ == head + evidence_lines(cv.evidence, k as nat),
        decreases claim.evidence.len() - k,
    {
        let e: &EvidenceArgs = &claim.evidence[k];
        append(output, "  - Evidence: `");
        let name = e.kind.name();
        append(output, name.as_str());
        append(output, " = ");
        let tidy = format_rust_tokens(e.binder.as_str());
        let escaped = escape_code(tidy.as_str());
        append(output, escaped.as_str());
        append(output, "`\n");
        proof {
            assert(cv.evidence[k as int] == e.deep_view());
            assert(output@ =~= head + evidence_lines(cv.evidence, (k + 1) as nat));
        }
        k = k + 1;
    }
    append(output, "\n");
    proof {
        assert(output@ =~= start + claim_text(cv));
    }
}

/// The heading of a claim group.
pub open spec fn group_heading(c: ClaimArgsV) -> Seq<char> {
    "#### "@ + kind_name(c.kind) + ", "@ + axis_name(c.axis) + "\n\n"@
}

/// The first `n` claims, with a heading wherever the kind or axis changes.
pub open spec fn claims_text(cs: Seq<ClaimArgsV>, n: nat) -> Seq<char>
    decreases n,
{
    if n == 0 || n > cs.len() {
        Seq::empty()
    } else {
        let c = cs[n - 1];
        let heading = if n == 1 || cs[n - 2].kind != c.kind || cs[n - 2].axis != c.axis {
            group_heading(c)
        } else {
            Seq::empty()
        };
        claims_text(cs, (n - 1) as nat) + heading + claim_text(c)
    }
}

/// Each claim's bullet follows directly on the text before it, preceded by a
/// `#### <Kind>, <Axis>` heading that names its own kind and axis exactly when it is the
/// first claim or its kind or axis differs from the claim before it; so every claim sits
/// under a heading for its own kind and axis.
pub proof fn lemma_claims_under_own_heading(cs: Seq<ClaimArgsV>, i: int)
    requires
        0 <= i < cs.len(),
    ensures
        claims_text(cs, (i + 1) as nat) == claims_text(cs, i as nat) + (if i == 0 || cs[i - 1].kind
            != cs[i].kind || cs[i - 1].axis != cs[i].axis {
            "#### "@ + kind_name(cs[i].kind) + ", "@ + axis_name(cs[i].axis) + "\n\n"@
        } else {
            Seq::<char>::empty()
        }) + claim_text(cs[i]),
{
}

/// Every claim sits under a heading for its own kind and axis: some earlier or equal claim
/// `j` opened a `#### <Kind>, <Axis>` heading that names the kind and axis of claim `i`,
/// and from `j` through `i` all claims share that kind and axis and no further heading
/// comes between them.
pub proof fn lemma_claim_group_heading(cs: Seq<ClaimArgsV>, i: int)
    requires
        0 <= i < cs.len(),
    ensures
        exists|j: int|
            0 <= j <= i && #[trigger] claims_text(cs, (j + 1) as nat) == claims_text(cs, j as nat) + (
            "#### "@ + kind_name(cs[i].kind) + ", "@ + axis_name(cs[i].axis) + "\n\n"@) + claim_text(cs[j])
                && forall|k: int|
                j <= k <= i ==> (#[trigger] cs[k]).kind == cs[i].kind && cs[k].axis == cs[i].axis && (j < k
                    ==> claims_text(cs, (k + 1) as nat) == claims_text(cs, k as nat) + claim_text(cs[k])),
    decreases i,
{
    lemma_claims_under_own_heading(cs, i);
    if i == 0 || cs[i - 1].kind != cs[i].kind || cs[i - 1].axis != cs[i].axis {
        assert(claims_text(cs, (i + 1) as nat) == claims_text(cs, i as nat) + (
            "#### "@ + kind_name(cs[i].kind) + ", "@ + axis_name(cs[i].axis) + "\n\n"@) + claim_text(cs[i]));
    } else {
        assert(claims_text(cs, (i + 1) as nat) =~= claims_text(cs, i as nat) + claim_text(cs[i]));
        lemma_claim_group_heading(cs, i - 1);
        let j = choose|j: int|
            0 <= j <= i - 1 && #[trigger] claims_text(cs, (j + 1) as nat) == claims_text(cs, j as nat) + (
            "#### "@ + kind_name(cs[i - 1].kind) + ", "@ + axis_name(cs[i - 1].axis) + "\n\n"@) + claim_text(cs[j])
                && forall|k: int|
                j <= k <= i - 1 ==> (#[trigger] cs[k]).kind == cs[i - 1].kind && cs[k].axis == cs[i - 1].axis && (j
                    < k ==> claims_text(cs, (k + 1) as nat) == claims_text(cs, k as nat) + claim_text(cs[k]));
        assert(claims_text(cs, (j + 1) as nat) == claims_text(cs, j as nat) + (
            "#### "@ + kind_name(cs[i].kind) + ", "@ + axis_name(cs[i].axis) + "\n\n"@) + claim_text(cs[j]));
        assert forall|k: int|
            j <= k <= i implies (#[trigger] cs[k]).kind == cs[i].kind && cs[k].axis == cs[i].axis && (j < k
                ==> claims_text(cs, (k + 1) as nat) == claims_text(cs, k as nat) + claim_text(cs[k])) by {
            if k < i {
                assert(cs[k].kind == cs[i - 1].kind);
            }
        }
    }
}

/// Appends the claims of one block, grouped under kind and axis headings.
pub fn render_claims(output: &mut String, claims: &ClaimsArgs)
    ensures
        final(output)@ == old(output)@ + claims_text(claims.deep_view().claims, claims.claims.len() as nat),
{
    let ghost start = output@;
    let ghost cs = claims.deep_view().claims;
    let mut k: usize = 0;
    while k < claims.claims.len()
        invariant
            k <= claims.claims.len(),
            cs == claims.deep_view().claims,
            output@ == start + claims_text(cs, k as nat),
        decreases claims.claims.len() - k,
    {
        let c: &ClaimArgs = &claims.claims[k];
        let ghost before = output@;
        let changed = k == 0 || claims.claims[k - 1].kind != c.kind || claims.claims[k - 1].axis != c.axis;
        if changed {
            append(output, "#### ");
            let kn = c.kind.name();
            append(output, kn.as_str());
            append(output, ", ");
            let an = c.axis.name();
            append(output, an.as_str());
            append(output, "\n\n");
        }
        let ghost mid = output@;
        render_claim(output, c);
        proof {
            assert(cs[k as int] == c.deep_view());
            if k > 0 {
                assert(cs[k - 1] == claims.claims[k - 1].deep_view());
            }
            if changed {
                assert(mid =~= before + group_heading(cs[k as int]));
            } else {
                assert(mid =~= before + Seq::<char>::empty());
            }
            assert(output@ =~= start + claims_text(cs, (k + 1) as nat));
        }
        k = k + 1;
    }
}

/// The claims section of one declared span (empty when it declares no claim).
pub open spec fn span_claims_text(span: SpanArgsV) -> Seq<char> {
    match span.claims {
        Some(c) => if c.claims.len() > 0 {
            "### Span `"@ + code_escape(span.id) + "` claims\n\n"@ + claims_text(c.claims, c.claims.len())
        } else {
            Seq::empty()
        },
        None => Seq::empty(),
    }
}

/// Appends the claims section of one declared span.
pub fn render_span_claims(output: &mut String, span: &SpanArgs)
    ensures
        final(output)@ == old(output)@ + span_claims_text(span.deep_view()),
{
    let ghost start = output@;
    match &span.claims {
        Some(claims) => {
            if claims.claims.len() > 0 {
                append(output, "### Span `");
                let escaped = escape_code(span.id.as_str());
                append(output, escaped.as_str());
                append(output, "` claims\n\n");
                render_claims(output, claims);
                proof {
                    assert(output@ =~= start + span_claims_text(span.deep_view()));
                }
            } else {
                assert(output@ =~= start + Seq::<char>::empty());
            }
        },
        None => {
            assert(output@ =~= start + Seq::<char>::empty());
        },
    }
}

/// The parts of the generated section, collected from every annotation of an item.
pub struct DocPartsV {
    /// `in_spans` ids, each once, in first-written order.
    pub memberships: Seq<Seq<char>>,
    /// Declared spans in written order.
    pub spans: Seq<SpanArgsV>,
    /// Claims blocks that hold at least one claim.
    pub item_claims: Seq<ClaimsArgsV>,
}

/// `ms` extended by the first `k` of `ids` that it does not hold yet.
pub open spec fn add_ids(ms: Seq<Seq<char>>, ids: Seq<Seq<char>>, k: nat) -> Seq<Seq<char>>
    decreases k,
{
    if k == 0 || k > ids.len() {
        ms
    } else {
        let prev = add_ids(ms, ids, (k - 1) as nat);
        if prev.contains(ids[k - 1]) {
            prev
        } else {
            prev.push(ids[k - 1])
        }
    }
}

/// The parts after one more directive.
pub open spec fn add_directive(p: DocPartsV, d: DirectiveV) -> DocPartsV {
    match d {
        DirectiveV::Span(s) => DocPartsV { memberships: p.memberships, spans: p.spans.push(s), item_claims: p.item_claims },
        DirectiveV::InSpans(ids) => DocPartsV {
            memberships: add_ids(p.memberships, ids, ids.len()),
            spans: p.spans,
            item_claims: p.item_claims,
        },
        DirectiveV::Claims(c) => if c.claims.len() > 0 {
            DocPartsV { memberships: p.memberships, spans: p.spans, item_claims: p.item_claims.push(c) }
        } else {
            p
        },
    }
}

/// The parts after the first `m` directives of one annotation.
pub open spec fn add_directives(p: DocPartsV, ds: Seq<DirectiveV>, m: nat) -> DocPartsV
    decreases m,
{
    if m == 0 || m > ds.len() {
        p
    } else {
        add_directive(add_directives(p, ds, (m - 1) as nat), ds[m - 1])
    }
}

/// The parts of the first `n` annotations.
pub open spec fn doc_parts(anns: Seq<SpecdrsArgsV>, n: nat) -> DocPartsV
    decreases n,
{
    if n == 0 || n > anns.len() {
        DocPartsV { memberships: Seq::empty(), spans: Seq::empty(), item_claims: Seq::empty() }
    } else {
        let prev = doc_parts(anns, (n - 1) as nat);
        add_directives(prev, anns[n - 1].directives, anns[n - 1].directives.len())
    }
}

/// The ids of declared spans.
pub open spec fn span_ids_of(spans: Seq<SpanArgsV>) -> Seq<Seq<char>> {
    spans.map_values(|s: SpanArgsV| s.id)
}

/// The span claims sections of the first `n` spans.
pub open spec fn spans_claims_text(spans: Seq<SpanArgsV>, n: nat) -> Seq<char>
    decreases n,
{
    if n == 0 || n > spans.len() {
        Seq::empty()
    } else {
        spans_claims_text(spans, (n - 1) as nat) + span_claims_text(spans[n - 1])
    }
}

/// The item claims of the first `n` blocks.
pub open spec fn blocks_text(blocks: Seq<ClaimsArgsV>, n: nat) -> Seq<char>
    decreases n,
{
    if n == 0 || n > blocks.len() {
        Seq::empty()
    } else {
        blocks_text(blocks, (n - 1) as nat) + claims_text(blocks[n - 1].claims, blocks[n - 1].claims.len())
    }
}

/// The generated section before trailing whitespace is removed.
pub open spec fn doc_body(p: DocPartsV, is_impl: bool) -> Seq<char> {
    "## specdrs\n\n"@ + (if p.memberships.len() > 0 {
        "Member of spans: "@ + ids_text(p.memberships) + ".\n\n"@
    } else {
        Seq::empty()
    }) + (if p.spans.len() > 0 {
        "Declares spans: "@ + ids_text(span_ids_of(p.spans)) + ".\n\n"@ + (if !is_impl {
            "This item is a member of every span it declares.\n\n"@
        } else {
            Seq::empty()
        })
    } else {
        Seq::empty()
    }) + (if is_impl {
        "Every item in this block is a member.\n\n"@
    } else {
        Seq::empty()
    }) + spans_claims_text(p.spans, p.spans.len()) + (if p.item_claims.len() > 0 {
        "### Item claims\n\n"@ + blocks_text(p.item_claims, p.item_claims.len())
    } else {
        Seq::empty()
    })
}

/// Unicode whitespace (`char::is_whitespace`).
pub open spec fn is_whitespace(c: char) -> bool {
    c == '\t' || c == '\n' || c == '\u{0b}' || c == '\u{0c}' || c == '\r' || c == ' ' || c
        == '\u{85}' || c == '\u{a0}' || c == '\u{1680}' || ('\u{2000}' <= c && c <= '\u{200a}')
        || c == '\u{2028}' || c == '\u{2029}' || c == '\u{202f}' || c == '\u{205f}' || c
        == '\u{3000}'
}

/// `s` without trailing whitespace (`str::trim_end`).
pub open spec fn trim_end(s: Seq<char>) -> Seq<char>
    decreases s.len(),
{
    if s.len() > 0 && is_whitespace(s.last()) {
        trim_end(s.drop_last())
    } else {
        s
    }
}

/// The rustdoc section for an item's annotations; none when they declare nothing to show.
pub open spec fn documentation(anns: Seq<SpecdrsArgsV>, is_impl: bool) -> Option<Seq<char>> {
    let p = doc_parts(anns, anns.len());
    if p.memberships.len() == 0 && p.spans.len() == 0 && p.item_claims.len() == 0 {
        None
    } else {
        Some(trim_end(doc_body(p, is_impl)))
    }
}

pub(crate) fn whitespace_char(c: char) -> (r: bool)
    ensures
        r == is_whitespace(c),
{
    c == '\t' || c == '\n' || c == '\u{0b}' || c == '\u{0c}' || c == '\r' || c == ' ' || c
        == '\u{85}' || c == '\u{a0}' || c == '\u{1680}' || ('\u{2000}' <= c && c <= '\u{200a}')
        || c == '\u{2028}' || c == '\u{2029}' || c == '\u{202f}' || c == '\u{205f}' || c
        == '\u{3000}'
}

/// Returns the text without trailing whitespace.
pub fn trim_end_text(s: &str) -> (r: String)
    ensures
        r@ == trim_end(s@),
{
    let v = chars_of(s);
    let mut n = v.len();
    assert(v@.take(n as int) =~= v@);
    while n > 0 && whitespace_char(v[n - 1])
        invariant
            n <= v@.len(),
            v@ == s@,
            trim_end(s@) == trim_end(v@.take(n as int)),
        decreases n,
    {
        proof {
            assert(v@.take(n as int).drop_last() =~= v@.take(n - 1));
        }
        n = n - 1;
    }
    let mut out: Vec<char> = Vec::new();
    let mut k: usize = 0;
    while k < n
        invariant
            k <= n <= v@.len(),
            out@ == v@.take(k as int),
        decreases n - k,
    {
        out.push(v[k]);
        k = k + 1;
        assert(out@ =~= v@.take(k as int));
    }
    proof {
        assert(v@.take(s@.len() as int) =~= s@);
    }
    string_from_chars(out.as_slice())
}

fn contains_id(ms: &Vec<String>, id: &String) -> (r: bool)
    ensures
        r == ms.deep_view().contains(id@),
{
    let ghost mv = ms.deep_view();
    let mut k: usize = 0;
    while k < ms.len()
        invariant
            k <= ms.len(),
            mv == ms.deep_view(),
            forall|x: int| 0 <= x < k ==> mv[x] != id@,
        decreases ms.len() - k,
    {
        if strings_equal(&ms[k], id) {
            assert(mv[k as int] == id@);
            return true;
        }
        k = k + 1;
    }
    false
}

/// The parts of the generated section, as collected from the annotations.
struct DocParts<'a> {
    memberships: Vec<String>,
    spans: Vec<&'a SpanArgs>,
    item_claims: Vec<&'a ClaimsArgs>,
}

impl<'a> DocParts<'a> {
    spec fn view_parts(&self) -> DocPartsV {
        DocPartsV {
            memberships: self.memberships.deep_view(),
            spans: self.spans.deep_view(),
            item_claims: self.item_claims.deep_view(),
        }
    }
}

fn add_memberships(memberships: &mut Vec<String>, ids: &Vec<String>)
    ensures
        final(memberships).deep_view() == add_ids(old(memberships).deep_view(), ids.deep_view(), ids.len() as nat),
{
    let ghost iv = ids.deep_view();
    let ghost m0 = memberships.deep_view();
    let mut k: usize = 0;
    while k < ids.len()
        invariant
            k <= ids.len(),
            iv == ids.deep_view(),
            memberships.deep_view() == add_ids(m0, iv, k as nat),
        decreases ids.len() - k,
    {
        if !contains_id(memberships, &ids[k]) {
            let ghost before = memberships.deep_view();
            memberships.push(ids[k].clone());
            assert(memberships.deep_view() =~= before.push(iv[k as int]));
        }
        k = k + 1;
    }
}

fn collect_doc_parts<'a>(annotations: &'a Vec<SpecdrsArgs>) -> (r: DocParts<'a>)
    ensures
        r.view_parts() == doc_parts(annotations.deep_view(), annotations.len() as nat),
{
    let ghost av = annotations.deep_view();
    let mut parts = DocParts { memberships: Vec::new(), spans: Vec::new(), item_claims: Vec::new() };
    proof {
        assert(parts.memberships.deep_view() =~= Seq::<Seq<char>>::empty());
        assert(parts.spans.deep_view() =~= Seq::<SpanArgsV>::empty());
        assert(parts.item_claims.deep_view() =~= Seq::<ClaimsArgsV>::empty());
    }
    let mut a: usize = 0;
    while a < annotations.len()
        invariant
            a <= annotations.len(),
            av == annotations.deep_view(),
            doc_parts(av, a as nat) == parts.view_parts(),
        decreases annotations.len() - a,
    {
        let ds: &Vec<Directive> = &annotations[a].directives;
        let ghost dv = ds.deep_view();
        let ghost p0 = doc_parts(av, a as nat);
        let mut d: usize = 0;
        while d < ds.len()
            invariant
                d <= ds.len(),
                dv == ds.deep_view(),
                add_directives(p0, dv, d as nat) == parts.view_parts(),
            decreases ds.len() - d,
        {
            match &ds[d] {
                Directive::Span(s) => {
                    let ghost before = parts.spans.deep_view();
                    parts.spans.push(s);
                    assert(parts.spans.deep_view() =~= before.push(s.deep_view()));
                },
                Directive::InSpans(ids) => {
                    add_memberships(&mut parts.memberships, ids);
                },
                Directive::Claims(c) => {
                    if c.claims.len() > 0 {
                        let ghost before = parts.item_claims.deep_view();
                        parts.item_claims.push(c);
                        assert(parts.item_claims.deep_view() =~= before.push(c.deep_view()));
                    }
                },
            }
            d = d + 1;
        }
        a = a + 1;
    }
    parts
}

fn span_names(spans: &Vec<&SpanArgs>) -> (r: Vec<String>)
    ensures
        r.deep_view() == span_ids_of(spans.deep_view()),
{
    let mut names: Vec<String> = Vec::new();
    let mut k: usize = 0;
    while k < spans.len()
        invariant
            k <= spans.len(),
            names@.len() == k,
            forall|x: int| 0 <= x < k ==> #[trigger] names@[x]@ == spans@[x].id@,
        decreases spans.len() - k,
    {
        names.push(spans[k].id.clone());
        k = k + 1;
    }
    assert(names.deep_view() =~= span_ids_of(spans.deep_view()));
    names
}

/// The head of the section: memberships, declared spans and the membership notes.
pub open spec fn doc_head(p: DocPartsV, is_impl: bool) -> Seq<char> {
    "## specdrs\n\n"@ + (if p.memberships.len() > 0 {
        "Member of spans: "@ + ids_text(p.memberships) + ".\n\n"@
    } else {
        Seq::empty()
    }) + (if p.spans.len() > 0 {
        "Declares spans: "@ + ids_text(span_ids_of(p.spans)) + ".\n\n"@ + (if !is_impl {
            "This item is a member of every span it declares.\n\n"@
        } else {
            Seq::empty()
        })
    } else {
        Seq::empty()
    }) + (if is_impl {
        "Every item in this block is a member.\n\n"@
    } else {
        Seq::empty()
    })
}

fn render_memberships(output: &mut String, memberships: &Vec<String>)
    ensures
        final(output)@ == old(output)@ + (if memberships.len() > 0 {
            "Member of spans: "@ + ids_text(memberships.deep_view()) + ".\n\n"@
        } else {
            Seq::empty()
        }),
{
    let ghost start = output@;
    if memberships.len() > 0 {
        append(output, "Member of spans: ");
        let ids = format_ids(memberships);
        append(output, ids.as_str());
        append(output, ".\n\n");
        assert(output@ =~= start + ("Member of spans: "@ + ids_text(memberships.deep_view()) + ".\n\n"@));
    } else {
        assert(output@ =~= start + Seq::<char>::empty());
    }
}

fn render_declared(output: &mut String, spans: &Vec<&SpanArgs>, is_impl: bool)
    ensures
        final(output)@ == old(output)@ + (if spans.len() > 0 {
            "Declares spans: "@ + ids_text(span_ids_of(spans.deep_view())) + ".\n\n"@ + (if !is_impl {
                "This item is a member of every span it declares.\n\n"@
            } else {
                Seq::empty()
            })
        } else {
            Seq::empty()
        }),
{
    let ghost start = output@;
    if spans.len() > 0 {
        append(output, "Declares spans: ");
        let names = span_names(spans);
        let ids = format_ids(&names);
        append(output, ids.as_str());
        append(output, ".\n\n");
        let ghost mid = output@;
        if !is_impl {
            append(output, "This item is a member of every span it declares.\n\n");
            assert(output@ =~= mid + "This item is a member of every span it declares.\n\n"@);
        } else {
            assert(output@ =~= mid + Seq::<char>::empty());
        }
        assert(output@ =~= start + ("Declares spans: "@ + ids_text(span_ids_of(spans.deep_view()))
            + ".\n\n"@ + (if !is_impl {
            "This item is a member of every span it declares.\n\n"@
        } else {
            Seq::<char>::empty()
        })));
    } else {
        assert(output@ =~= start + Seq::<char>::empty());
    }
}

fn render_head(output: &mut String, parts: &DocParts, is_impl: bool)
    ensures
        final(output)@ == old(output)@ + doc_head(parts.view_parts(), is_impl),
{
    let ghost start = output@;
    append(output, "## specdrs\n\n");
    let ghost s1 = output@;
    render_memberships(output, &parts.memberships);
    let ghost s2 = output@;
    render_declared(output, &parts.spans, is_impl);
    let ghost s3 = output@;
    if is_impl {
        append(output, "Every item in this block is a member.\n\n");
        assert(output@ =~= s3 + "Every item in this block is a member.\n\n"@);
    } else {
        assert(output@ =~= s3 + Seq::<char>::empty());
    }
    proof {
        let p = parts.view_parts();
        assert(output@ =~= start + doc_head(p, is_impl));
    }
}

fn render_tail(output: &mut String, parts: &DocParts)
    ensures
        final(output)@ == old(output)@ + spans_claims_text(parts.view_parts().spans, parts.spans.len() as nat)
            + (if parts.item_claims.len() > 0 {
            "### Item claims\n\n"@ + blocks_text(parts.view_parts().item_claims, parts.item_claims.len() as nat)
        } else {
            Seq::empty()
        }),
{
    let ghost start = output@;
    let mut k: usize = 0;
    while k < parts.spans.len()
        invariant
            k <= parts.spans.len(),
            output@ == start + spans_claims_text(parts.spans.deep_view(), k as nat),
        decreases parts.spans.len() - k,
    {
        render_span_claims(output, parts.spans[k]);
        proof {
            assert(output@ =~= start + spans_claims_text(parts.spans.deep_view(), (k + 1) as nat));
        }
        k = k + 1;
    }
    let ghost s5 = output@;
    if parts.item_claims.len() > 0 {
        append(output, "### Item claims\n\n");
        let ghost s6 = output@;
        let mut k: usize = 0;
        while k < parts.item_claims.len()
            invariant
                k <= parts.item_claims.len(),
                output@ == s6 + blocks_text(parts.item_claims.deep_view(), k as nat),
            decreases parts.item_claims.len() - k,
        {
            render_claims(output, parts.item_claims[k]);
            proof {
                assert(output@ =~= s6 + blocks_text(parts.item_claims.deep_view(), (k + 1) as nat));
            }
            k = k + 1;
        }
        assert(output@ =~= s5 + ("### Item claims\n\n"@ + blocks_text(parts.item_claims.deep_view(), parts.item_claims.len() as nat)));
    } else {
        assert(output@ =~= s5 + Seq::<char>::empty());
    }
}

/// Renders the generated rustdoc section for an item's annotations.
pub fn render_documentation(annotations: &Vec<SpecdrsArgs>, is_impl: bool) -> (r: Option<String>)
    ensures
        r.deep_view() == documentation(annotations.deep_view(), is_impl),
{
    let parts = collect_doc_parts(annotations);
    if parts.memberships.len() == 0 && parts.spans.len() == 0 && parts.item_claims.len() == 0 {
        return None;
    }
    let mut output = String::new();
    render_head(&mut output, &parts, is_impl);
    render_tail(&mut output, &parts);
    proof {
        let p = parts.view_parts();
        assert(output@ =~= doc_body(p, is_impl));
    }
    Some(trim_end_text(output.as_str()))
}

fn any_claims(annotations: &Vec<SpecdrsArgs>) -> (r: bool)
    ensures
        r == declares_claims(annotations.deep_view()),
{
    let ghost av = annotations.deep_view();
    let mut a: usize = 0;
    while a < annotations.len()
        invariant
            a <= annotations.len(),
            av == annotations.deep_view(),
            forall|x: int, d: int|
                0 <= x < a && 0 <= d < av[x].directives.len() ==> !(#[trigger] av[x].directives[d] is Claims),
        decreases annotations.len() - a,
    {
        let ds = &annotations[a].directives;
        let mut d: usize = 0;
        while d < ds.len()
            invariant
                a < annotations.len(),
                d <= ds.len(),
                av == annotations.deep_view(),
                ds.deep_view() == av[a as int].directives,
                forall|x: int, y: int|
                    0 <= x < a && 0 <= y < av[x].directives.len() ==> !(#[trigger] av[x].directives[y] is Claims),
                forall|y: int| 0 <= y < d ==> !(#[trigger] av[a as int].directives[y] is Claims),
            decreases ds.len() - d,
        {
            if let Directive::Claims(_) = &ds[d] {
                assert(av[a as int].directives[d as int] is Claims);
                return true;
            }
            d = d + 1;
        }
        a = a + 1;
    }
    false
}

/// Whether any annotation declares a claims block.
pub open spec fn declares_claims(anns: Seq<SpecdrsArgsV>) -> bool {
    exists|a: int, d: int|
        0 <= a < anns.len() && 0 <= d < anns[a].directives.len()
            && #[trigger] anns[a].directives[d] is Claims
}

/// What the attribute macro adds to an item: the rendered section, or the refusal of
/// claims on an `impl` block.
pub fn expand_documentation(annotations: &Vec<SpecdrsArgs>, is_impl: bool) -> (r: Result<Option<String>, String>)
    ensures
        match r {
            Ok(doc) => !(is_impl && declares_claims(annotations.deep_view())) && doc.deep_view()
                == documentation(annotations.deep_view(), is_impl),
            Err(msg) => is_impl && declares_claims(annotations.deep_view()) && msg@
                == impl_claims_message(),
        },
{
    if is_impl && any_claims(annotations) {
        return Err(String::from_str(impl_cannot_own_claims()));
    }
    Ok(render_documentation(annotations, is_impl))
}

/// The check `specdrs_module!` makes: it holds `in_spans` directives and nothing else.
pub fn validate_module_memberships(args: &SpecdrsArgs) -> (r: Result<(), String>)
    ensures
        match r {
            Ok(()) => args.directives.len() > 0 && forall|d: int|
                0 <= d < args.directives.len() ==> #[trigger] args.deep_view().directives[d] is InSpans,
            Err(msg) => !(args.directives.len() > 0 && forall|d: int|
                0 <= d < args.directives.len() ==> #[trigger] args.deep_view().directives[d] is InSpans)
                && msg@ == module_message(),
        },
{
    let ghost dv = args.deep_view().directives;
    if args.directives.len() == 0 {
        return Err(String::from_str(specdrs_module_requires_in_spans()));
    }
    let mut d: usize = 0;
    while d < args.directives.len()
        invariant
            d <= args.directives.len(),
            dv == args.deep_view().directives,
            forall|y: int| 0 <= y < d ==> #[trigger] dv[y] is InSpans,
        decreases args.directives.len() - d,
    {
        match &args.directives[d] {
            Directive::InSpans(_) => {},
            _ => {
                assert(!(dv[d as int] is InSpans));
                return Err(String::from_str(specdrs_module_requires_in_spans()));
            },
        }
        d = d + 1;
    }
    Ok(())
}

/// The check `specdrs_span!` makes: with no host item, the declaration names its entry.
pub fn validate_span_declaration(span: &SpanArgs) -> (r: Result<(), String>)
    ensures
        match r {
            Ok(()) => span.entry is Some,
            Err(msg) => span.entry is None && msg@ == span_entry_message(),
        },
{
    if span.entry.is_none() {
        Err(String::from_str(specdrs_span_requires_entrypoint()))
    } else {
        Ok(())
    }
}

} // verus!
