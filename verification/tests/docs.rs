use specdrs::attribute::{parse_span_args, parse_specdrs_args, SpecdrsArgs};
use specdrs::docs::{
    clean_signature, expand_documentation, format_rust_tokens, render_documentation,
    replace_text, trim_end_text, validate_module_memberships, validate_span_declaration,
};

fn args(text: &str) -> SpecdrsArgs {
    parse_specdrs_args(text).expect("valid attribute arguments")
}

#[test]
fn appends_claims_and_evidence_after_authored_docs() {
    let annotations = vec![args(
        r#"
                in_spans("checkout"),
                claims(
                    Constraints(
                        Invariants("Amount must be positive." as positive_amount),
                    ),
                    evidence(
                        positive_amount(Test = crate::tests::positive_amount),
                    ),
                )
            "#,
    )];
    let docs = expand_documentation(&annotations, false)
        .expect("valid attribute should expand")
        .expect("the attribute generates documentation");
    assert_eq!(
        docs,
        "## specdrs\n\n\
         Member of spans: `checkout`.\n\n\
         ### Item claims\n\n\
         #### Constraint, Invariants\n\n\
         - Amount must be positive.\n  \
         - Evidence: `Test = crate::tests::positive_amount`"
    );
}

#[test]
fn combines_attributes_without_duplicate_sections() {
    let annotations = vec![
        args(
            r#"
                span(
                    id = "checkout",
                    claims(Objectives(Job("Charge the customer." as purpose))),
                )
            "#,
        ),
        args(r#"claims(Constraints(Interface("Accept cents." as accepts_cents)))"#),
    ];
    let docs = expand_documentation(&annotations, false)
        .expect("valid attributes should expand")
        .expect("documentation");
    assert_eq!(docs.matches("## specdrs").count(), 1);
    assert!(docs.contains("Declares spans: `checkout`."));
    assert!(docs.contains("This item is a member of every span it declares."));
    assert!(docs.contains("### Span `checkout` claims"));
    assert!(docs.contains("### Item claims"));
}

#[test]
fn rejects_invalid_syntax() {
    let error = parse_specdrs_args(r#"claims(Unknown(Job("No." as invalid)))"#)
        .err()
        .expect("invalid syntax should fail expansion");
    assert!(error.message().contains("unknown claims group"));
}

#[test]
fn membership_only_attributes_still_generate_docs() {
    let annotations = vec![args(r#"in_spans("checkout", "payments")"#)];
    assert_eq!(
        render_documentation(&annotations, false).as_deref(),
        Some("## specdrs\n\nMember of spans: `checkout`, `payments`.")
    );
}

#[test]
fn module_memberships_accept_only_in_spans() {
    assert!(validate_module_memberships(&args(r#"in_spans("checkout", "payments")"#)).is_ok());
    let error = validate_module_memberships(&args(
        r#"claims(Constraints(Job("Wrong scope." as wrong_scope)))"#,
    ))
    .expect_err("module declarations must contain only memberships");
    assert!(error.contains("requires one or more in_spans"));
}

#[test]
fn impl_hosts_declare_spans_and_reject_claims() {
    let annotations = vec![args(r#"span(id = "gateway", entry = self::Gateway::send)"#)];
    let docs = expand_documentation(&annotations, true)
        .expect("an impl host should expand")
        .expect("documentation");
    assert!(docs.contains("Declares spans: `gateway`."), "{docs}");
    assert!(docs.contains("Every item in this block is a member."), "{docs}");
    assert!(!docs.contains("This item is a member"), "{docs}");

    let error = expand_documentation(
        &vec![args(r#"claims(Constraints(Job("No owner." as no_owner)))"#)],
        true,
    )
    .expect_err("an impl block cannot own claims");
    assert!(error.contains("an impl block cannot own claims"), "{error}");
}

#[test]
fn span_declarations_require_an_entry() {
    let span = parse_span_args(
        r#"
                id = "checkout",
                parent = "payments",
                entry = crate::checkout::run,
                claims(Constraints(Job("Charge once." as charge_once)))
            "#,
    )
    .expect("a full declaration parses");
    assert!(validate_span_declaration(&span).is_ok());
    let span = parse_span_args(r#"id = "checkout""#).expect("an id alone parses");
    let error = validate_span_declaration(&span)
        .expect_err("a free-standing span declaration must name its entry");
    assert!(error.contains("requires `entry`"));
    assert!(
        parse_span_args("entry = crate::checkout::run").is_err(),
        "a span declaration still requires `id`"
    );
}

#[test]
fn tokenized_signatures_are_readable() {
    assert_eq!(
        clean_signature("fn charge (amount : & ChargeReq) -> Result < Receipt , Error >"),
        "fn charge(amount: &ChargeReq) -> Result<Receipt, Error>"
    );
}

#[test]
fn evidence_binders_render_without_token_spacing() {
    assert_eq!(
        format_rust_tokens("< Receipt as From < Request > > :: from"),
        "< Receipt as From<Request>>::from"
    );
}

#[test]
fn replacement_scans_left_to_right_without_overlap() {
    assert_eq!(replace_text("aaaa", "aa", "b"), "bb");
    assert_eq!(replace_text("a`b`", "`", "\\`"), "a\\`b\\`");
    assert_eq!(replace_text("line\nnext", "\n", "\n  "), "line\n  next");
}

#[test]
fn trailing_whitespace_is_trimmed() {
    assert_eq!(trim_end_text("text \n\t\u{a0}"), "text");
    assert_eq!(trim_end_text(""), "");
}

#[test]
fn multiline_claims_indent_continuation_lines_and_escape_backticks() {
    let annotations = vec![args(
        "span(id = \"a`b\", claims(Objectives(Job(\"First line\\nsecond line\" as two_lines))))",
    )];
    let docs = render_documentation(&annotations, false).expect("documentation");
    assert_eq!(
        docs,
        "## specdrs\n\n\
         Declares spans: `a\\`b`.\n\n\
         This item is a member of every span it declares.\n\n\
         ### Span `a\\`b` claims\n\n\
         #### Objective, Job\n\n\
         - First line\n  second line"
    );
}

#[test]
fn nothing_to_show_generates_no_section() {
    let annotations = vec![args("claims(NotApplicable(State = \"Stateless.\"))")];
    assert_eq!(render_documentation(&annotations, false), None);
}
