use specdrs::model::{
    Axis, AxisEntry, AxisStatus, Claim, ClaimKind, Item, KnowledgeMap, SourcePosition,
    SourceRange, Span,
};
use specdrs::projection::{ClaimProjection, GroupKey, ProjectedClaim};

fn axes_with_claim(id: &str) -> Vec<AxisEntry> {
    let mut axes = Axis::empty_map();
    let entry = &mut axes[Axis::Job.index()];
    entry.status = AxisStatus::Specified;
    entry.claims.push(Claim {
        id: id.into(),
        kind: ClaimKind::Constraint,
        text: id.into(),
        evidence: Vec::new(),
    });
    axes
}

fn nested_map() -> KnowledgeMap {
    KnowledgeMap {
        schema: 2,
        crate_name: "sample".into(),
        spans: vec![
            Span {
                id: "parent".into(),
                parent: None,
                entry: "sample::work".into(),
                members: vec!["sample::work".into()],
                axes: axes_with_claim("parent_claim"),
            },
            Span {
                id: "child".into(),
                parent: Some("parent".into()),
                entry: "sample::work".into(),
                members: vec!["sample::work".into()],
                axes: axes_with_claim("child_claim"),
            },
        ],
        items: vec![(
            "sample::work".into(),
            Item {
                source: SourceRange {
                    file: "src/lib.rs".into(),
                    start: SourcePosition { line: 1, column: 0 },
                    end: SourcePosition { line: 1, column: 12 },
                },
                signature: "fn work()".into(),
                spans: vec!["child".into(), "parent".into()],
                axes: axes_with_claim("item_claim"),
            },
        )],
    }
}

#[test]
fn duplicate_group_keys_are_rejected() {
    let error = ClaimProjection::new(Vec::new(), vec![GroupKey::Kind, GroupKey::Kind])
        .expect_err("duplicate keys should fail");
    assert!(error.contains("repeat"));
}

#[test]
fn claim_order_is_preserved_inside_one_group() {
    let claims = ["written_first", "written_second"]
        .into_iter()
        .map(|id| ProjectedClaim {
            owner: "item:crate::work".into(),
            axis: Axis::Job,
            claim: Claim {
                id: id.into(),
                kind: ClaimKind::Objective,
                text: id.into(),
                evidence: Vec::new(),
            },
        })
        .collect();
    let projection = ClaimProjection::new(
        claims,
        vec![GroupKey::Kind, GroupKey::Axis, GroupKey::Owner],
    )
    .unwrap();
    assert_eq!(projection.claims[0].claim.id, "written_first");
    assert_eq!(projection.claims[1].claim.id, "written_second");
}

#[test]
fn ancestors_precede_descendants_without_duplicates() {
    let map = nested_map();
    let item = &map.items[0].1;
    let spans = map.applicable_spans(item);
    assert_eq!(
        spans.iter().map(|span| span.id.as_str()).collect::<Vec<_>>(),
        ["parent", "child"]
    );
}

#[test]
fn item_view_includes_span_and_local_claims() {
    let map = nested_map();
    let all = map.item_claims("sample::work").unwrap();
    assert_eq!(
        all.iter().map(|claim| claim.owner.as_str()).collect::<Vec<_>>(),
        ["span:parent", "span:child", "item:sample::work"]
    );
    let local = map.local_item_claims("sample::work").unwrap();
    assert_eq!(local.len(), 1);
    assert_eq!(local[0].owner, "item:sample::work");
}

#[test]
fn unknown_owners_have_no_projection() {
    let map = nested_map();
    assert!(map.item_claims("sample::absent").is_none());
    assert!(map.local_item_claims("sample::absent").is_none());
    assert!(map.span_claims("absent").is_none());
    let span = map.span_claims("child").unwrap();
    assert_eq!(span.len(), 1);
    assert_eq!(span[0].owner, "span:child");
    assert_eq!(span[0].claim.id, "child_claim");
}

#[test]
fn projection_orders_by_the_requested_keys() {
    let claim = |owner: &str, axis: Axis, kind: ClaimKind, id: &str| ProjectedClaim {
        owner: owner.into(),
        axis,
        claim: Claim { id: id.into(), kind, text: id.into(), evidence: Vec::new() },
    };
    let claims = vec![
        claim("span:b", Axis::Time, ClaimKind::Assumption, "one"),
        claim("span:a", Axis::Job, ClaimKind::Constraint, "two"),
        claim("span:b", Axis::Job, ClaimKind::Objective, "three"),
        claim("span:a", Axis::Time, ClaimKind::Objective, "four"),
    ];
    let projection = ClaimProjection::new(claims, vec![GroupKey::Owner, GroupKey::Axis]).unwrap();
    let ids: Vec<&str> = projection.claims.iter().map(|c| c.claim.id.as_str()).collect();
    assert_eq!(ids, ["two", "four", "three", "one"]);
    let error = ClaimProjection::new(Vec::new(), Vec::new()).expect_err("no key");
    assert!(error.contains("at least one key"));
}

#[test]
fn group_keys_parse_by_name() {
    assert_eq!(GroupKey::parse("owner"), Ok(GroupKey::Owner));
    assert_eq!(GroupKey::parse("axis"), Ok(GroupKey::Axis));
    assert_eq!(GroupKey::parse("rank"), Err("unknown grouping key `rank`".to_string()));
    assert_eq!(GroupKey::Kind.name(), "kind");
}
