use specdrs::model::{Axis, AxisStatus, ClaimKind, EvidenceKind};

#[test]
fn empty_axes_contains_every_axis() {
    let axes = Axis::empty_map();
    assert_eq!(axes.len(), Axis::all().len());
    assert!(Axis::all()
        .iter()
        .all(|axis| axes[axis.index()].status == AxisStatus::Unspecified));
}

#[test]
fn all_axes_are_emitted() {
    assert_eq!(Axis::empty_map().len(), 12);
}

#[test]
fn axes_are_named_and_ordered_by_declaration() {
    let names: Vec<String> = Axis::all().iter().map(|a| a.name()).collect();
    assert_eq!(
        names,
        [
            "Job", "Interface", "Effects", "Invariants", "Assumptions", "State", "Time",
            "Failure", "Resources", "Authority", "Observation", "Change"
        ]
    );
    assert_eq!(Axis::at(7), Axis::Failure);
    assert_eq!(Axis::Change.index(), 11);
    assert_eq!(ClaimKind::Assumption.name(), "Assumption");
    assert_eq!(EvidenceKind::Proof.name(), "Proof");
}
