//! Defines the versioned knowledge-map data model.
use vstd::prelude::*;

use crate::text::{clone_opt_string, clone_strings, same_string, string_lit};

verus! {

/// Semantic axis occupied by a claim.
#[derive(Debug, Clone, Copy, PartialEq, Eq, Structural)]
pub enum Axis {
    /// Describes the outcome the owner exists to produce.
    Job,
    /// Describes the owner's caller-visible contract.
    Interface,
    /// Describes external state changes caused by the owner.
    Effects,
    /// Describes conditions that must always hold.
    Invariants,
    /// Describes facts the owner assumes to be true.
    Assumptions,
    /// Describes retained state and its lifecycle.
    State,
    /// Describes latency, ordering, and deadline requirements.
    Time,
    /// Describes failure behavior and recovery.
    Failure,
    /// Describes bounded compute, memory, and external work.
    Resources,
    /// Describes permissions and decision rights.
    Authority,
    /// Describes emitted signals used to inspect behavior.
    Observation,
    /// Describes compatibility and evolution constraints.
    Change,
}

/// The number of semantic axes.
pub const AXIS_COUNT: usize = 12;

/// Declaration-order position of an axis.
pub open spec fn axis_index(axis: Axis) -> nat {
    match axis {
        Axis::Job => 0,
        Axis::Interface => 1,
        Axis::Effects => 2,
        Axis::Invariants => 3,
        Axis::Assumptions => 4,
        Axis::State => 5,
        Axis::Time => 6,
        Axis::Failure => 7,
        Axis::Resources => 8,
        Axis::Authority => 9,
        Axis::Observation => 10,
        Axis::Change => 11,
    }
}

/// The axis at a declaration-order position (`Change` past the end).
pub open spec fn axis_at(index: int) -> Axis {
    if index == 0 {
        Axis::Job
    } else if index == 1 {
        Axis::Interface
    } else if index == 2 {
        Axis::Effects
    } else if index == 3 {
        Axis::Invariants
    } else if index == 4 {
        Axis::Assumptions
    } else if index == 5 {
        Axis::State
    } else if index == 6 {
        Axis::Time
    } else if index == 7 {
        Axis::Failure
    } else if index == 8 {
        Axis::Resources
    } else if index == 9 {
        Axis::Authority
    } else if index == 10 {
        Axis::Observation
    } else {
        Axis::Change
    }
}

/// The rendered name of an axis, equal to its variant name.
pub open spec fn axis_name(axis: Axis) -> Seq<char> {
    match axis {
        Axis::Job => seq!['J', 'o', 'b'],
        Axis::Interface => seq!['I', 'n', 't', 'e', 'r', 'f', 'a', 'c', 'e'],
        Axis::Effects => seq!['E', 'f', 'f', 'e', 'c', 't', 's'],
        Axis::Invariants => seq!['I', 'n', 'v', 'a', 'r', 'i', 'a', 'n', 't', 's'],
        Axis::Assumptions => seq!['A', 's', 's', 'u', 'm', 'p', 't', 'i', 'o', 'n', 's'],
        Axis::State => seq!['S', 't', 'a', 't', 'e'],
        Axis::Time => seq!['T', 'i', 'm', 'e'],
        Axis::Failure => seq!['F', 'a', 'i', 'l', 'u', 'r', 'e'],
        Axis::Resources => seq!['R', 'e', 's', 'o', 'u', 'r', 'c', 'e', 's'],
        Axis::Authority => seq!['A', 'u', 't', 'h', 'o', 'r', 'i', 't', 'y'],
        Axis::Observation => seq!['O', 'b', 's', 'e', 'r', 'v', 'a', 't', 'i', 'o', 'n'],
        Axis::Change => seq!['C', 'h', 'a', 'n', 'g', 'e'],
    }
}

/// Whether a name is the name of some axis.
pub open spec fn is_axis_name(name: Seq<char>) -> bool {
    exists|i: int| 0 <= i < 12 && #[trigger] axis_name(axis_at(i)) == name
}

impl DeepView for Axis {
    type V = Axis;

    open spec fn deep_view(&self) -> Axis {
        *self
    }
}

impl Axis {
    /// Returns the axis's declaration-order position.
    pub fn index(&self) -> (r: usize)
        ensures
            r == axis_index(*self),
            r < 12,
    {
        match self {
            Axis::Job => 0,
            Axis::Interface => 1,
            Axis::Effects => 2,
            Axis::Invariants => 3,
            Axis::Assumptions => 4,
            Axis::State => 5,
            Axis::Time => 6,
            Axis::Failure => 7,
            Axis::Resources => 8,
            Axis::Authority => 9,
            Axis::Observation => 10,
            Axis::Change => 11,
        }
    }

    /// Returns the axis at a declaration-order position.
    pub fn at(index: usize) -> (r: Axis)
        requires
            index < 12,
        ensures
            r == axis_at(index as int),
            axis_index(r) == index,
    {
        if index == 0 {
            Axis::Job
        } else if index == 1 {
            Axis::Interface
        } else if index == 2 {
            Axis::Effects
        } else if index == 3 {
            Axis::Invariants
        } else if index == 4 {
            Axis::Assumptions
        } else if index == 5 {
            Axis::State
        } else if index == 6 {
            Axis::Time
        } else if index == 7 {
            Axis::Failure
        } else if index == 8 {
            Axis::Resources
        } else if index == 9 {
            Axis::Authority
        } else if index == 10 {
            Axis::Observation
        } else {
            Axis::Change
        }
    }

    /// Contains every semantic axis in declaration order.
    pub fn all() -> (r: Vec<Axis>)
        ensures
            r@.len() == 12,
            forall|i: int| 0 <= i < 12 ==> r@[i] == axis_at(i),
    {
        let mut r: Vec<Axis> = Vec::new();
        let mut i: usize = 0;
        while i < 12
            invariant
                i <= 12,
                r@.len() == i,
                forall|k: int| 0 <= k < i ==> r@[k] == axis_at(k),
            decreases 12 - i,
        {
            r.push(Axis::at(i));
            i = i + 1;
        }
        r
    }

    /// Returns the variant name of the axis.
    pub fn name(&self) -> (r: String)
        ensures
            r@ == axis_name(*self),
    {
        let r = match self {
            Axis::Job => string_lit("Job"),
            Axis::Interface => string_lit("Interface"),
            Axis::Effects => string_lit("Effects"),
            Axis::Invariants => string_lit("Invariants"),
            Axis::Assumptions => string_lit("Assumptions"),
            Axis::State => string_lit("State"),
            Axis::Time => string_lit("Time"),
            Axis::Failure => string_lit("Failure"),
            Axis::Resources => string_lit("Resources"),
            Axis::Authority => string_lit("Authority"),
            Axis::Observation => string_lit("Observation"),
            Axis::Change => string_lit("Change"),
        };
        proof {
            reveal_strlit("Job");
            reveal_strlit("Interface");
            reveal_strlit("Effects");
            reveal_strlit("Invariants");
            reveal_strlit("Assumptions");
            reveal_strlit("State");
            reveal_strlit("Time");
            reveal_strlit("Failure");
            reveal_strlit("Resources");
            reveal_strlit("Authority");
            reveal_strlit("Observation");
            reveal_strlit("Change");
        }
        r
    }

    /// Creates an unspecified entry for every semantic axis, in declaration order.
    pub fn empty_map() -> (r: Vec<AxisEntry>)
        ensures
            r.deep_view().len() == 12,
            forall|i: int| 0 <= i < 12 ==> #[trigger] r.deep_view()[i] == unspecified_entry(),
    {
        let mut r: Vec<AxisEntry> = Vec::new();
        let mut i: usize = 0;
        while i < 12
            invariant
                i <= 12,
                r@.len() == i,
                forall|k: int| 0 <= k < i ==> #[trigger] r@[k].deep_view() == unspecified_entry(),
            decreases 12 - i,
        {
            r.push(AxisEntry::unspecified());
            i = i + 1;
        }
        r
    }
}

/// Describes how strongly a claim binds its owner.
#[derive(Debug, Clone, Copy, PartialEq, Eq, Structural)]
pub enum ClaimKind {
    /// States an outcome the owner is expected to achieve.
    Objective,
    /// States a condition the owner must satisfy.
    Constraint,
    /// States a fact accepted without enforcement by the owner.
    Assumption,
}

impl DeepView for ClaimKind {
    type V = ClaimKind;

    open spec fn deep_view(&self) -> ClaimKind {
        *self
    }
}

/// The variant name of a claim kind.
pub open spec fn kind_name(kind: ClaimKind) -> Seq<char> {
    match kind {
        ClaimKind::Objective => seq!['O', 'b', 'j', 'e', 'c', 't', 'i', 'v', 'e'],
        ClaimKind::Constraint => seq!['C', 'o', 'n', 's', 't', 'r', 'a', 'i', 'n', 't'],
        ClaimKind::Assumption => seq!['A', 's', 's', 'u', 'm', 'p', 't', 'i', 'o', 'n'],
    }
}

impl ClaimKind {
    /// Returns the variant name of the kind.
    pub fn name(&self) -> (r: String)
        ensures
            r@ == kind_name(*self),
    {
        let r = match self {
            ClaimKind::Objective => string_lit("Objective"),
            ClaimKind::Constraint => string_lit("Constraint"),
            ClaimKind::Assumption => string_lit("Assumption"),
        };
        proof {
            reveal_strlit("Objective");
            reveal_strlit("Constraint");
            reveal_strlit("Assumption");
        }
        r
    }
}

/// Identifies an inspectable artifact linked to a claim.
#[derive(Debug, Clone, Copy, PartialEq, Eq, Structural)]
pub enum EvidenceKind {
    /// Links to a Rust type.
    Type,
    /// Links to a test function.
    Test,
    /// Links to a fuzz target.
    Fuzz,
    /// Links to a proof artifact.
    Proof,
    /// Links to a lint or static check.
    Lint,
}

impl DeepView for EvidenceKind {
    type V = EvidenceKind;

    open spec fn deep_view(&self) -> EvidenceKind {
        *self
    }
}

/// The variant name of an evidence kind.
pub open spec fn evidence_kind_name(kind: EvidenceKind) -> Seq<char> {
    match kind {
        EvidenceKind::Type => seq!['T', 'y', 'p', 'e'],
        EvidenceKind::Test => seq!['T', 'e', 's', 't'],
        EvidenceKind::Fuzz => seq!['F', 'u', 'z', 'z'],
        EvidenceKind::Proof => seq!['P', 'r', 'o', 'o', 'f'],
        EvidenceKind::Lint => seq!['L', 'i', 'n', 't'],
    }
}

impl EvidenceKind {
    /// Returns the variant name of the kind.
    pub fn name(&self) -> (r: String)
        ensures
            r@ == evidence_kind_name(*self),
    {
        let r = match self {
            EvidenceKind::Type => string_lit("Type"),
            EvidenceKind::Test => string_lit("Test"),
            EvidenceKind::Fuzz => string_lit("Fuzz"),
            EvidenceKind::Proof => string_lit("Proof"),
            EvidenceKind::Lint => string_lit("Lint"),
        };
        proof {
            reveal_strlit("Type");
            reveal_strlit("Test");
            reveal_strlit("Fuzz");
            reveal_strlit("Proof");
            reveal_strlit("Lint");
        }
        r
    }
}

/// Describes the resolution or runner result for an evidence link.
#[derive(Debug, Clone, Copy, PartialEq, Eq, Structural)]
pub enum EvidenceResult {
    /// The artifact resolved but was not executed.
    Linked,
    /// The artifact executed successfully.
    Passed,
    /// The artifact executed and failed.
    Failed,
    /// No compatible artifact could be resolved or executed.
    Unavailable,
}

impl DeepView for EvidenceResult {
    type V = EvidenceResult;

    open spec fn deep_view(&self) -> EvidenceResult {
        *self
    }
}

/// Links a claim to an inspectable artifact.
#[derive(Debug)]
pub struct Evidence {
    /// Identifies the artifact type.
    pub kind: EvidenceKind,
    /// Contains the artifact's Rust item path.
    pub binder: String,
    /// Contains the artifact's resolution or runner result.
    pub result: EvidenceResult,
}

/// Mathematical value of an [`Evidence`].
pub struct EvidenceV {
    pub kind: EvidenceKind,
    pub binder: Seq<char>,
    pub result: EvidenceResult,
}

impl DeepView for Evidence {
    type V = EvidenceV;

    open spec fn deep_view(&self) -> EvidenceV {
        EvidenceV { kind: self.kind, binder: self.binder@, result: self.result }
    }
}

impl Evidence {
    /// Returns an equal copy.
    pub fn duplicate(&self) -> (r: Evidence)
        ensures
            r.deep_view() == self.deep_view(),
    {
        Evidence { kind: self.kind, binder: self.binder.clone(), result: self.result }
    }
}

/// States one proposition owned by a span or Rust item.
#[derive(Debug)]
pub struct Claim {
    /// Contains the stable alias within the owning claim block.
    pub id: String,
    /// Describes how the proposition binds its owner.
    pub kind: ClaimKind,
    /// Contains the proposition.
    pub text: String,
    /// Contains artifacts linked to the proposition.
    pub evidence: Vec<Evidence>,
}

/// Mathematical value of a [`Claim`].
pub struct ClaimV {
    pub id: Seq<char>,
    pub kind: ClaimKind,
    pub text: Seq<char>,
    pub evidence: Seq<EvidenceV>,
}

impl DeepView for Claim {
    type V = ClaimV;

    open spec fn deep_view(&self) -> ClaimV {
        ClaimV {
            id: self.id@,
            kind: self.kind,
            text: self.text@,
            evidence: self.evidence.deep_view(),
        }
    }
}

/// Copies a vector of evidence links.
pub fn clone_evidence(v: &Vec<Evidence>) -> (r: Vec<Evidence>)
    ensures
        r.deep_view() == v.deep_view(),
{
    let mut r: Vec<Evidence> = Vec::new();
    let mut i: usize = 0;
    while i < v.len()
        invariant
            i <= v.len(),
            r@.len() == i,
            forall|k: int| 0 <= k < i ==> #[trigger] r@[k].deep_view() == v@[k].deep_view(),
        decreases v.len() - i,
    {
        r.push(v[i].duplicate());
        i = i + 1;
    }
    assert(r.deep_view() =~= v.deep_view());
    r
}

impl Claim {
    /// Returns an equal copy.
    pub fn duplicate(&self) -> (r: Claim)
        ensures
            r.deep_view() == self.deep_view(),
    {
        Claim {
            id: self.id.clone(),
            kind: self.kind,
            text: self.text.clone(),
            evidence: clone_evidence(&self.evidence),
        }
    }
}

/// Copies a vector of claims.
pub fn clone_claims(v: &Vec<Claim>) -> (r: Vec<Claim>)
    ensures
        r.deep_view() == v.deep_view(),
{
    let mut r: Vec<Claim> = Vec::new();
    let mut i: usize = 0;
    while i < v.len()
        invariant
            i <= v.len(),
            r@.len() == i,
            forall|k: int| 0 <= k < i ==> #[trigger] r@[k].deep_view() == v@[k].deep_view(),
        decreases v.len() - i,
    {
        r.push(v[i].duplicate());
        i = i + 1;
    }
    assert(r.deep_view() =~= v.deep_view());
    r
}

/// Describes whether an owner accounts for one semantic axis.
#[derive(Debug, Clone, Copy, PartialEq, Eq, Structural)]
pub enum AxisStatus {
    /// The owner does not account for the axis.
    Unspecified,
    /// The owner explicitly declares that the axis does not apply.
    NotApplicable,
    /// The owner declares one or more claims for the axis.
    Specified,
}

impl DeepView for AxisStatus {
    type V = AxisStatus;

    open spec fn deep_view(&self) -> AxisStatus {
        *self
    }
}

/// Contains one owner's status and claims for a semantic axis.
#[derive(Debug)]
pub struct AxisEntry {
    /// Describes whether the owner accounts for the axis.
    pub status: AxisStatus,
    /// Explains why the axis does not apply.
    pub reason: Option<String>,
    /// Contains claims assigned to the axis.
    pub claims: Vec<Claim>,
}

/// Mathematical value of an [`AxisEntry`].
pub struct AxisEntryV {
    pub status: AxisStatus,
    pub reason: Option<Seq<char>>,
    pub claims: Seq<ClaimV>,
}

impl DeepView for AxisEntry {
    type V = AxisEntryV;

    open spec fn deep_view(&self) -> AxisEntryV {
        AxisEntryV {
            status: self.status,
            reason: self.reason.deep_view(),
            claims: self.claims.deep_view(),
        }
    }
}

/// The entry of an axis nobody accounted for.
pub open spec fn unspecified_entry() -> AxisEntryV {
    AxisEntryV { status: AxisStatus::Unspecified, reason: None, claims: Seq::empty() }
}

impl AxisEntry {
    /// Creates an axis entry that has not been accounted for.
    pub fn unspecified() -> (r: AxisEntry)
        ensures
            r.deep_view() == unspecified_entry(),
    {
        let r = AxisEntry { status: AxisStatus::Unspecified, reason: None, claims: Vec::new() };
        assert(r.claims.deep_view() =~= Seq::<ClaimV>::empty());
        r
    }

    /// Returns an equal copy.
    pub fn duplicate(&self) -> (r: AxisEntry)
        ensures
            r.deep_view() == self.deep_view(),
    {
        AxisEntry {
            status: self.status,
            reason: clone_opt_string(&self.reason),
            claims: clone_claims(&self.claims),
        }
    }
}

/// Copies an axis map.
pub fn clone_axes(v: &Vec<AxisEntry>) -> (r: Vec<AxisEntry>)
    ensures
        r.deep_view() == v.deep_view(),
{
    let mut r: Vec<AxisEntry> = Vec::new();
    let mut i: usize = 0;
    while i < v.len()
        invariant
            i <= v.len(),
            r@.len() == i,
            forall|k: int| 0 <= k < i ==> #[trigger] r@[k].deep_view() == v@[k].deep_view(),
        decreases v.len() - i,
    {
        r.push(v[i].duplicate());
        i = i + 1;
    }
    assert(r.deep_view() =~= v.deep_view());
    r
}

/// Identifies a zero-based column on a one-based source line.
#[derive(Debug, Clone, Copy, PartialEq, Eq, Structural)]
pub struct SourcePosition {
    /// Contains the one-based source line.
    pub line: usize,
    /// Contains the zero-based column.
    pub column: usize,
}

impl DeepView for SourcePosition {
    type V = SourcePosition;

    open spec fn deep_view(&self) -> SourcePosition {
        *self
    }
}

/// Whether `a` is at or before `b` (line first, then column).
pub open spec fn position_le(a: SourcePosition, b: SourcePosition) -> bool {
    a.line < b.line || (a.line == b.line && a.column <= b.column)
}

impl SourcePosition {
    /// Returns whether this position is at or before another.
    pub fn le(&self, other: &SourcePosition) -> (r: bool)
        ensures
            r == position_le(*self, *other),
    {
        self.line < other.line || (self.line == other.line && self.column <= other.column)
    }
}

/// Identifies a half-open range in one source file.
#[derive(Debug)]
pub struct SourceRange {
    /// Contains the source path relative to the package root.
    pub file: String,
    /// Contains the inclusive start position.
    pub start: SourcePosition,
    /// Contains the exclusive end position.
    pub end: SourcePosition,
}

/// Mathematical value of a [`SourceRange`].
pub struct SourceRangeV {
    pub file: Seq<char>,
    pub start: SourcePosition,
    pub end: SourcePosition,
}

impl DeepView for SourceRange {
    type V = SourceRangeV;

    open spec fn deep_view(&self) -> SourceRangeV {
        SourceRangeV { file: self.file@, start: self.start, end: self.end }
    }
}

impl SourceRange {
    /// Returns an equal copy.
    pub fn duplicate(&self) -> (r: SourceRange)
        ensures
            r.deep_view() == self.deep_view(),
    {
        SourceRange { file: self.file.clone(), start: self.start, end: self.end }
    }
}

/// Describes a named semantic span across Rust items.
#[derive(Debug)]
pub struct Span {
    /// Contains the stable span identifier.
    pub id: String,
    /// Contains the optional parent span identifier.
    pub parent: Option<String>,
    /// Contains the Rust item path where reading starts.
    pub entry: String,
    /// Contains Rust item paths included in the span.
    pub members: Vec<String>,
    /// Contains every semantic axis for the span, in declaration order.
    pub axes: Vec<AxisEntry>,
}

/// Mathematical value of a [`Span`].
pub struct SpanV {
    pub id: Seq<char>,
    pub parent: Option<Seq<char>>,
    pub entry: Seq<char>,
    pub members: Seq<Seq<char>>,
    pub axes: Seq<AxisEntryV>,
}

impl DeepView for Span {
    type V = SpanV;

    open spec fn deep_view(&self) -> SpanV {
        SpanV {
            id: self.id@,
            parent: self.parent.deep_view(),
            entry: self.entry@,
            members: self.members.deep_view(),
            axes: self.axes.deep_view(),
        }
    }
}

impl Span {
    /// Returns an equal copy.
    pub fn duplicate(&self) -> (r: Span)
        ensures
            r.deep_view() == self.deep_view(),
    {
        Span {
            id: self.id.clone(),
            parent: clone_opt_string(&self.parent),
            entry: self.entry.clone(),
            members: clone_strings(&self.members),
            axes: clone_axes(&self.axes),
        }
    }
}

/// Describes one Rust item in a knowledge map.
#[derive(Debug)]
pub struct Item {
    /// Contains the item's complete source range.
    pub source: SourceRange,
    /// Contains the item's normalized Rust signature.
    pub signature: String,
    /// Contains span identifiers assigned to the item.
    pub spans: Vec<String>,
    /// Contains every semantic axis for the item, in declaration order.
    pub axes: Vec<AxisEntry>,
}

/// Mathematical value of an [`Item`].
pub struct ItemV {
    pub source: SourceRangeV,
    pub signature: Seq<char>,
    pub spans: Seq<Seq<char>>,
    pub axes: Seq<AxisEntryV>,
}

impl DeepView for Item {
    type V = ItemV;

    open spec fn deep_view(&self) -> ItemV {
        ItemV {
            source: self.source.deep_view(),
            signature: self.signature@,
            spans: self.spans.deep_view(),
            axes: self.axes.deep_view(),
        }
    }
}

/// Contains the versioned knowledge map for one Rust crate.
#[derive(Debug)]
pub struct KnowledgeMap {
    /// Contains the serialized schema version.
    pub schema: u32,
    /// Contains the normalized Rust crate name.
    pub crate_name: String,
    /// Contains declared semantic spans.
    pub spans: Vec<Span>,
    /// Maps Rust item paths to item metadata and claims, in ascending path order (see
    /// `assembly::map_ordered`, which `assemble` establishes).
    pub items: Vec<(String, Item)>,
}

/// Mathematical value of a [`KnowledgeMap`].
pub struct KnowledgeMapV {
    pub schema: u32,
    pub crate_name: Seq<char>,
    pub spans: Seq<SpanV>,
    pub items: Seq<(Seq<char>, ItemV)>,
}

impl DeepView for KnowledgeMap {
    type V = KnowledgeMapV;

    open spec fn deep_view(&self) -> KnowledgeMapV {
        KnowledgeMapV {
            schema: self.schema,
            crate_name: self.crate_name@,
            spans: self.spans.deep_view(),
            items: self.items.deep_view(),
        }
    }
}

/// Whether `k` is the first position of an item keyed by `path`.
pub open spec fn is_first_item(items: Seq<(Seq<char>, ItemV)>, path: Seq<char>, k: int) -> bool {
    &&& 0 <= k < items.len()
    &&& items[k].0 == path
    &&& forall|j: int| 0 <= j < k ==> items[j].0 != path
}

/// Position of the first item keyed by `path`, if any.
pub open spec fn find_item(items: Seq<(Seq<char>, ItemV)>, path: Seq<char>) -> Option<int> {
    if exists|k: int| is_first_item(items, path, k) {
        Some(choose|k: int| is_first_item(items, path, k))
    } else {
        None
    }
}

impl KnowledgeMap {
    /// Returns the position of the item keyed by `path`, if the map has one.
    pub fn item_index(&self, path: &str) -> (r: Option<usize>)
        ensures
            match r {
                Some(k) => find_item(self.deep_view().items, path@) == Some(k as int),
                None => find_item(self.deep_view().items, path@) is None,
            },
    {
        let ghost items = self.deep_view().items;
        let mut i: usize = 0;
        while i < self.items.len()
            invariant
                i <= self.items.len(),
                items == self.deep_view().items,
                forall|j: int| 0 <= j < i ==> items[j].0 != path@,
            decreases self.items.len() - i,
        {
            if same_string(&self.items[i].0, path) {
                assert(is_first_item(items, path@, i as int));
                assert forall|k: int| is_first_item(items, path@, k) implies k == i by {
                    if k < i {
                    } else if k > i {
                        assert(items[i as int].0 == path@);
                    }
                }
                return Some(i);
            }
            i = i + 1;
        }
        None
    }
}

} // verus!
