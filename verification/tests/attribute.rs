use specdrs::attribute::{parse_span_args, parse_specdrs_args, Directive};
use specdrs::syntax::SyntaxErrorKind;

#[test]
fn parses_free_standing_span_declaration() {
    let span = parse_span_args(
        r#"
            id = "ledger",
            parent = "checkout",
            entry = self::capture,
            claims(Constraints(Invariants("Every capture is recorded." as recorded))),
            "#,
    )
    .expect("a bare span declaration should parse");
    assert_eq!(span.id, "ledger");
    assert_eq!(span.parent.as_deref(), Some("checkout"));
    assert_eq!(span.entry.as_deref(), Some("self :: capture"));
    assert_eq!(span.claims.expect("claims are declared").claims.len(), 1);
}

#[test]
fn parses_schema_two_attribute() {
    let args = parse_specdrs_args(
        r#"
            span(
                id = "checkout",
                claims(
                    Objectives(Job("Charge the customer." as purpose)),
                    Constraints(
                        Invariants(
                            "One key creates one row." as no_duplicate,
                            "Every capture is recorded." as capture_recorded,
                        ),
                    ),
                    Assumptions(Change("The provider remains compatible." as provider_stability)),
                    NotApplicable(Resources = "No resource target."),
                    evidence(
                        no_duplicate(
                            Fuzz = crate::props::duplicate_keys,
                            Test = crate::tests::duplicate_keys,
                        ),
                    ),
                ),
            ),
            in_spans("audit", "payments"),
            claims(Constraints(Interface("Amount uses account currency." as currency))),
            "#,
    )
    .expect("schema two attribute should parse");

    assert_eq!(args.directives.len(), 3);
    let Directive::Span(span) = &args.directives[0] else {
        panic!("expected span");
    };
    let claims = span.claims.as_ref().expect("span claims");
    assert_eq!(claims.claims.len(), 4);
    assert_eq!(claims.claims[1].evidence.len(), 2);
}

#[test]
fn rejects_schema_one_directives() {
    let error = parse_specdrs_args(
        r#"item_claim(id = "old", axis = Job, kind = Constraint, text = "Old.")"#,
    )
    .err()
    .expect("schema one syntax should fail");
    let message = error.message();
    assert!(message.contains("unknown specdrs directive"), "{message}");
    assert!(message.contains("in_spans(...)"), "{message}");
}

#[test]
fn rejects_unknown_evidence_alias() {
    let error = parse_specdrs_args(
        r#"claims(
                Constraints(Job("Known." as known)),
                evidence(missing(Test = crate::tests::missing)),
            )"#,
    )
    .err()
    .expect("unknown alias should fail");
    assert!(error.message().contains("unknown claim alias"));
}

#[test]
fn rejects_out_of_order_groups() {
    let error = parse_specdrs_args(
        r#"claims(
                Constraints(Job("Required." as required)),
                Objectives(Job("Desired." as desired)),
            )"#,
    )
    .err()
    .expect("out-of-order groups should fail");
    assert!(error.message().contains("must be ordered"));
}

#[test]
fn rejects_duplicate_axis_groups() {
    let error = parse_specdrs_args(
        r#"claims(Constraints(
                Job("First." as first),
                Job("Second." as second),
            ))"#,
    )
    .err()
    .expect("duplicate axes should fail");
    assert!(error.message().contains("duplicate axis"));
}

#[test]
fn rejects_duplicate_claim_aliases() {
    let error = parse_specdrs_args(
        r#"claims(Constraints(Job(
                "First." as duplicate,
                "Second." as duplicate,
            )))"#,
    )
    .err()
    .expect("duplicate aliases should fail");
    assert!(error.message().contains("aliases must be unique"));
}

#[test]
fn preserves_authored_claim_order() {
    let args = parse_specdrs_args(
        r#"claims(Objectives(Job(
                "Written first." as z_first,
                "Written second." as a_second,
            )))"#,
    )
    .expect("ordered claims should parse");
    let Directive::Claims(claims) = &args.directives[0] else {
        panic!("expected claims");
    };
    assert_eq!(claims.claims[0].id, "z_first");
    assert_eq!(claims.claims[1].id, "a_second");
}

#[test]
fn parses_qualified_evidence_binders() {
    let args = parse_specdrs_args(
        r#"claims(
                Constraints(Invariants("Qualified evidence." as qualified)),
                evidence(qualified(Test = <Receipt as From<Request>>::from)),
            )"#,
    )
    .expect("qualified binder should parse");

    let Directive::Claims(claims) = &args.directives[0] else {
        panic!("expected claims");
    };
    assert_eq!(
        claims.claims[0].evidence[0].binder,
        "< Receipt as From < Request > > :: from"
    );
}

#[test]
fn unknown_evidence_alias_names_the_least_unknown_alias() {
    let error = parse_specdrs_args(
        r#"claims(
                Constraints(Job("Known." as known)),
                evidence(zeta(Test = a::b), alpha(Test = a::c)),
            )"#,
    )
    .err()
    .expect("unknown aliases should fail");
    assert_eq!(error.kind, SyntaxErrorKind::UnknownEvidenceAlias);
    assert_eq!(error.subject, "alpha");
    assert_eq!(error.message(), "evidence names unknown claim alias `alpha`");
}

#[test]
fn claims_are_grouped_by_kind_then_axis_in_written_order() {
    let args = parse_specdrs_args(
        r#"claims(
                Objectives(Job("Goal." as goal)),
                Constraints(Time("Fast." as fast), Failure("Retry." as retry, "Log." as log)),
                Assumptions(State("Fresh." as fresh)),
                NotApplicable(Effects = "No effects.", Change = "Frozen."),
                evidence(retry(Test = crate::tests::retry, Lint = clippy::all)),
            )"#,
    )
    .expect("a full block should parse");
    let Directive::Claims(block) = &args.directives[0] else {
        panic!("expected claims");
    };
    let ids: Vec<&str> = block.claims.iter().map(|c| c.id.as_str()).collect();
    assert_eq!(ids, ["goal", "fast", "retry", "log", "fresh"]);
    assert_eq!(block.claims[2].evidence.len(), 2);
    assert_eq!(block.claims[2].evidence[1].binder, "clippy :: all");
    assert!(block.claims[3].evidence.is_empty());
    assert_eq!(block.not_applicable.len(), 2);
    assert_eq!(block.not_applicable[1].reason, "Frozen.");
}

#[test]
fn each_error_kind_has_an_input() {
    let cases: [(&str, SyntaxErrorKind); 22] = [
        ("span(parent = \"x\")", SyntaxErrorKind::SpanRequiresId),
        ("span(id = \"a\", id = \"b\")", SyntaxErrorKind::DuplicateSpanField),
        ("span(id = \"a\", owner = \"b\")", SyntaxErrorKind::UnknownSpanField),
        ("span(id = x)", SyntaxErrorKind::StringLiteralRequired),
        ("claims(Objectives(Job(\"a\" as a)), Objectives(Job(\"b\" as b)))", SyntaxErrorKind::DuplicateClaimsGroup),
        ("claims(Objectives(Nope(\"a\" as a)))", SyntaxErrorKind::UnknownAxis),
        ("claims(Objectives(Job()))", SyntaxErrorKind::EmptyAxisGroup),
        ("claims(Objectives())", SyntaxErrorKind::EmptyKindGroup),
        ("claims(NotApplicable(Job = \"a\", Job = \"b\"))", SyntaxErrorKind::DuplicateNotApplicableAxis),
        ("claims(NotApplicable())", SyntaxErrorKind::EmptyNotApplicable),
        ("claims(Objectives(Job(\"a\" as a)), evidence(a(Test = x), a(Test = y)))", SyntaxErrorKind::DuplicateEvidenceAlias),
        ("claims(Objectives(Job(\"a\" as a)), evidence(a(Test = x, Test = x)))", SyntaxErrorKind::DuplicateEvidenceLink),
        ("claims(Objectives(Job(\"a\" as a)), evidence(a()))", SyntaxErrorKind::EmptyEvidenceAlias),
        ("claims(Objectives(Job(\"a\" as a)), evidence())", SyntaxErrorKind::EmptyEvidenceGroup),
        ("claims(Objectives(Job(\"a\" as a)), evidence(a(Bench = x)))", SyntaxErrorKind::UnknownEvidenceKind),
        ("in_spans()", SyntaxErrorKind::EmptyInSpans),
        ("claims(Objectives(Job(\"a\" a)))", SyntaxErrorKind::ExpectedAs),
        ("claims(Objectives(Job(\"a\" as type)))", SyntaxErrorKind::ExpectedIdent),
        ("in_spans(\"a\" \"b\")", SyntaxErrorKind::ExpectedComma),
        ("span", SyntaxErrorKind::ExpectedParens),
        ("in_spans(x)", SyntaxErrorKind::ExpectedString),
        ("span(id = \"a\", entry = )", SyntaxErrorKind::ExpectedTypePath),
    ];
    for (text, kind) in cases {
        let error = parse_specdrs_args(text).err().unwrap_or_else(|| panic!("{text} should fail"));
        assert_eq!(error.kind, kind, "{text}: {}", error.message());
    }
    let error = parse_specdrs_args("span(id = \"a\", entry x)").err().unwrap();
    assert_eq!(error.kind, SyntaxErrorKind::ExpectedEq);
    let error = parse_specdrs_args("in_spans(\"a\"").err().unwrap();
    assert!(matches!(error.kind, SyntaxErrorKind::Lex(_)));
}

#[test]
fn type_paths_print_as_token_streams() {
    let span = parse_span_args(
        "id = \"s\", entry = ::std::vec::Vec::<(u8, &mut [u16])>::new",
    )
    .expect("a turbofish path should parse");
    assert_eq!(
        span.entry.as_deref(),
        Some(":: std :: vec :: Vec :: < (u8 , & mut [u16]) > :: new")
    );
}

#[test]
fn entrypoint_names_the_entry_field() {
    let span = parse_span_args("id = \"ledger\", entrypoint = self::capture")
        .expect("the documented spelling parses");
    assert_eq!(span.entry.as_deref(), Some("self :: capture"));
    let error = parse_span_args("id = \"ledger\", entry = a, entrypoint = b")
        .err()
        .expect("one entry only");
    assert_eq!(error.kind, SyntaxErrorKind::DuplicateSpanField);
}
