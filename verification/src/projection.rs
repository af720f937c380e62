//! Projects stored claims into caller-selected reading orders.
use vstd::prelude::*;

use crate::model::{
    axis_at, axis_index, AxisEntry, AxisEntryV, Claim, ClaimKind, ClaimV, Item, KnowledgeMap,
    Span, SpanV, Axis, find_item,
};
use crate::text::{concat, same_string, string_lit};

verus! {

/// Selects one key used to order and display projected claims.
#[derive(Debug, Clone, Copy, PartialEq, Eq, Structural)]
pub enum GroupKey {
    /// Groups claims by their span or item owner.
    Owner,
    /// Groups claims by objective, constraint, or assumption.
    Kind,
    /// Groups claims by semantic axis.
    Axis,
}

impl DeepView for GroupKey {
    type V = GroupKey;

    open spec fn deep_view(&self) -> GroupKey {
        *self
    }
}

/// The lower-case name of a grouping key.
pub open spec fn group_key_name(key: GroupKey) -> Seq<char> {
    match key {
        GroupKey::Owner => seq!['o', 'w', 'n', 'e', 'r'],
        GroupKey::Kind => seq!['k', 'i', 'n', 'd'],
        GroupKey::Axis => seq!['a', 'x', 'i', 's'],
    }
}

/// The key named by `value`, or the message rejecting it.
pub open spec fn group_key_parse(value: Seq<char>) -> Result<GroupKey, Seq<char>> {
    if value == group_key_name(GroupKey::Owner) {
        Ok(GroupKey::Owner)
    } else if value == group_key_name(GroupKey::Kind) {
        Ok(GroupKey::Kind)
    } else if value == group_key_name(GroupKey::Axis) {
        Ok(GroupKey::Axis)
    } else {
        Err(seq!['u', 'n', 'k', 'n', 'o', 'w', 'n', ' ', 'g', 'r', 'o', 'u', 'p', 'i', 'n', 'g', ' ', 'k', 'e', 'y', ' ', '`'] + value + seq!['`'])
    }
}

impl GroupKey {
    /// Returns the lower-case name of the key.
    pub fn name(&self) -> (r: String)
        ensures
            r@ == group_key_name(*self),
    {
        proof {
            reveal_strlit("owner");
            reveal_strlit("kind");
            reveal_strlit("axis");
        }
        match self {
            GroupKey::Owner => string_lit("owner"),
            GroupKey::Kind => string_lit("kind"),
            GroupKey::Axis => string_lit("axis"),
        }
    }

    /// Parses a lower-case key name.
    pub fn parse(value: &str) -> (r: Result<GroupKey, String>)
        ensures
            match r {
                Ok(key) => group_key_parse(value@) == Ok::<GroupKey, Seq<char>>(key),
                Err(message) => group_key_parse(value@) == Err::<GroupKey, Seq<char>>(message@),
            },
    {
        proof {
            reveal_strlit("owner");
            reveal_strlit("kind");
            reveal_strlit("axis");
            reveal_strlit("unknown grouping key `");
            reveal_strlit("`");
            assert("owner"@ =~= group_key_name(GroupKey::Owner));
            assert("kind"@ =~= group_key_name(GroupKey::Kind));
            assert("axis"@ =~= group_key_name(GroupKey::Axis));
        }
        let owned = string_lit(value);
        if same_string(&owned, "owner") {
            assert(value@ =~= group_key_name(GroupKey::Owner));
            Ok(GroupKey::Owner)
        } else if same_string(&owned, "kind") {
            assert(value@ != group_key_name(GroupKey::Owner)) by {
                assert(value@.len() == 4);
            }
            assert(value@ =~= group_key_name(GroupKey::Kind));
            Ok(GroupKey::Kind)
        } else if same_string(&owned, "axis") {
            assert(value@ != group_key_name(GroupKey::Owner)) by {
                assert(value@.len() == 4);
            }
            assert(value@ != group_key_name(GroupKey::Kind)) by {
                assert(value@[0] == 'a');
            }
            assert(value@ =~= group_key_name(GroupKey::Axis));
            Ok(GroupKey::Axis)
        } else {
            let mut message = concat("unknown grouping key `", value);
            message.append("`");
            assert(message@ =~= seq!['u', 'n', 'k', 'n', 'o', 'w', 'n', ' ', 'g', 'r', 'o', 'u', 'p', 'i', 'n', 'g', ' ', 'k', 'e', 'y', ' ', '`'] + value@ + seq!['`']);
            Err(message)
        }
    }
}

/// Contains one claim with its fully qualified owner and semantic axis.
#[derive(Debug)]
pub struct ProjectedClaim {
    /// Contains the `span:` or `item:` owner label.
    pub owner: String,
    /// Contains the claim's semantic axis.
    pub axis: Axis,
    /// Contains the stored claim.
    pub claim: Claim,
}

/// Mathematical value of a [`ProjectedClaim`].
pub struct ProjectedClaimV {
    pub owner: Seq<char>,
    pub axis: Axis,
    pub claim: ClaimV,
}

impl DeepView for ProjectedClaim {
    type V = ProjectedClaimV;

    open spec fn deep_view(&self) -> ProjectedClaimV {
        ProjectedClaimV { owner: self.owner@, axis: self.axis, claim: self.claim.deep_view() }
    }
}

/// Contains claims ordered for a caller-selected grouped view.
#[derive(Debug)]
pub struct ClaimProjection {
    /// Contains grouping keys in outermost-to-innermost order.
    pub group_by: Vec<GroupKey>,
    /// Contains claims sorted by the grouping keys.
    pub claims: Vec<ProjectedClaim>,
}

/// The owner label of a span.
pub open spec fn span_owner(id: Seq<char>) -> Seq<char> {
    seq!['s', 'p', 'a', 'n', ':'] + id
}

/// The owner label of an item.
pub open spec fn item_owner(path: Seq<char>) -> Seq<char> {
    seq!['i', 't', 'e', 'm', ':'] + path
}

/// The claims of one axis entry, labelled with their owner and axis.
pub open spec fn entry_claims(owner: Seq<char>, axis: Axis, claims: Seq<ClaimV>) -> Seq<ProjectedClaimV> {
    claims.map_values(|claim: ClaimV| ProjectedClaimV { owner, axis, claim })
}

/// The claims of the first `n` axis entries, in axis order and authored order.
pub open spec fn owner_claims_upto(owner: Seq<char>, axes: Seq<AxisEntryV>, n: nat) -> Seq<ProjectedClaimV>
    decreases n,
{
    if n == 0 {
        Seq::empty()
    } else {
        owner_claims_upto(owner, axes, (n - 1) as nat)
            + entry_claims(owner, axis_at(n - 1), axes[n - 1].claims)
    }
}

/// Every claim of an axis map under one owner label.
pub open spec fn owner_claims_spec(owner: Seq<char>, axes: Seq<AxisEntryV>) -> Seq<ProjectedClaimV> {
    owner_claims_upto(owner, axes, axes.len())
}

/// Whether `k` is the first position of a span with identifier `id`.
pub open spec fn is_first_span(spans: Seq<SpanV>, id: Seq<char>, k: int) -> bool {
    &&& 0 <= k < spans.len()
    &&& spans[k].id == id
    &&& forall|j: int| 0 <= j < k ==> spans[j].id != id
}

/// Position of the first span with identifier `id`, if any.
pub open spec fn find_span(spans: Seq<SpanV>, id: Seq<char>) -> Option<int> {
    if exists|k: int| is_first_span(spans, id, k) {
        Some(choose|k: int| is_first_span(spans, id, k))
    } else {
        None
    }
}

/// The span positions from the outermost ancestor down to the span `id`.
///
/// A missing span ends the chain; `fuel` bounds the walk on a cyclic map.
pub open spec fn chain(spans: Seq<SpanV>, id: Seq<char>, fuel: nat) -> Seq<int>
    decreases fuel,
{
    if fuel == 0 {
        Seq::empty()
    } else {
        match find_span(spans, id) {
            None => Seq::empty(),
            Some(k) => match spans[k].parent {
                Some(parent) => chain(spans, parent, (fuel - 1) as nat).push(k),
                None => seq![k],
            },
        }
    }
}

/// The chains of the first `n` identifiers, concatenated.
pub open spec fn chains_upto(spans: Seq<SpanV>, ids: Seq<Seq<char>>, n: nat) -> Seq<int>
    decreases n,
{
    if n == 0 {
        Seq::empty()
    } else {
        chains_upto(spans, ids, (n - 1) as nat) + chain(spans, ids[n - 1], spans.len())
    }
}

/// The sequence with each repeated element after its first occurrence removed.
pub open spec fn dedup_first(s: Seq<int>) -> Seq<int>
    decreases s.len(),
{
    if s.len() == 0 {
        s
    } else {
        let prefix = dedup_first(s.drop_last());
        if prefix.contains(s.last()) {
            prefix
        } else {
            prefix.push(s.last())
        }
    }
}

/// Span positions applicable to an item holding memberships `ids`, ancestors first.
pub open spec fn applicable_spec(spans: Seq<SpanV>, ids: Seq<Seq<char>>) -> Seq<int> {
    dedup_first(chains_upto(spans, ids, ids.len()))
}

/// The claims of the spans at the first `n` listed positions, in order.
pub open spec fn spans_claims_upto(spans: Seq<SpanV>, positions: Seq<int>, n: nat) -> Seq<ProjectedClaimV>
    decreases n,
{
    if n == 0 {
        Seq::empty()
    } else {
        let span = spans[positions[n - 1]];
        spans_claims_upto(spans, positions, (n - 1) as nat)
            + owner_claims_spec(span_owner(span.id), span.axes)
    }
}

/// The claims a span owns, or `None` for an unknown span.
pub open spec fn span_claims_spec(spans: Seq<SpanV>, id: Seq<char>) -> Option<Seq<ProjectedClaimV>> {
    match find_span(spans, id) {
        Some(k) => Some(owner_claims_spec(span_owner(id), spans[k].axes)),
        None => None,
    }
}

proof fn lemma_deep_push<T: DeepView>(v1: Vec<T>, v0: Vec<T>, x: T)
    requires
        v1@ == v0@.push(x),
    ensures
        v1.deep_view() == v0.deep_view().push(x.deep_view()),
{
    assert(v1.deep_view() =~= v0.deep_view().push(x.deep_view()));
}

/// Projects every claim in an axis map under one owner label.
fn owner_claims(owner: &str, axes: &Vec<AxisEntry>) -> (r: Vec<ProjectedClaim>)
    requires
        axes@.len() <= 12,
    ensures
        r.deep_view() == owner_claims_spec(owner@, axes.deep_view()),
{
    let ghost dv = axes.deep_view();
    let mut r: Vec<ProjectedClaim> = Vec::new();
    let mut i: usize = 0;
    while i < axes.len()
        invariant
            i <= axes@.len() <= 12,
            dv == axes.deep_view(),
            r.deep_view() == owner_claims_upto(owner@, dv, i as nat),
        decreases axes@.len() - i,
    {
        let axis = Axis::at(i);
        let entry = &axes[i];
        let ghost base = r.deep_view();
        let mut j: usize = 0;
        while j < entry.claims.len()
            invariant
                i < axes@.len() <= 12,
                axis == axis_at(i as int),
                dv == axes.deep_view(),
                entry == axes@[i as int],
                j <= entry.claims@.len(),
                base == owner_claims_upto(owner@, dv, i as nat),
                r.deep_view() == base + entry_claims(owner@, axis, dv[i as int].claims.take(j as int)),
            decreases entry.claims@.len() - j,
        {
            let ghost before = r;
            let projected = ProjectedClaim {
                owner: string_lit(owner),
                axis,
                claim: entry.claims[j].duplicate(),
            };
            r.push(projected);
            proof {
                lemma_deep_push(r, before, projected);
                assert(dv[i as int].claims.take(j + 1) =~= dv[i as int].claims.take(j as int).push(
                    dv[i as int].claims[j as int],
                ));
                assert(entry_claims(owner@, axis, dv[i as int].claims.take(j + 1)) =~= entry_claims(
                    owner@,
                    axis,
                    dv[i as int].claims.take(j as int),
                ).push(projected.deep_view()));
            }
            j = j + 1;
        }
        proof {
            assert(dv[i as int].claims.take(j as int) =~= dv[i as int].claims);
        }
        i = i + 1;
    }
    r
}

impl KnowledgeMap {
    /// Returns the position of the first span with identifier `id`, if any.
    pub fn span_index(&self, id: &str) -> (r: Option<usize>)
        ensures
            match r {
                Some(k) => find_span(self.spans.deep_view(), id@) == Some(k as int),
                None => find_span(self.spans.deep_view(), id@) is None,
            },
    {
        let ghost spans = self.spans.deep_view();
        let mut i: usize = 0;
        while i < self.spans.len()
            invariant
                i <= self.spans@.len(),
                spans == self.spans.deep_view(),
                forall|j: int| 0 <= j < i ==> spans[j].id != id@,
            decreases self.spans@.len() - i,
        {
            if same_string(&self.spans[i].id, id) {
                assert(is_first_span(spans, id@, i as int));
                assert forall|k: int| is_first_span(spans, id@, k) implies k == i by {
                    if k > i {
                        assert(spans[i as int].id == id@);
                    }
                }
                return Some(i);
            }
            i = i + 1;
        }
        None
    }
}


/// The claims the item at `path` owns, or `None` for an unknown item.
pub open spec fn local_item_claims_spec(items: Seq<(Seq<char>, crate::model::ItemV)>, path: Seq<char>) -> Option<Seq<ProjectedClaimV>> {
    match find_item(items, path) {
        Some(k) => Some(owner_claims_spec(item_owner(path), items[k].1.axes)),
        None => None,
    }
}

/// Inherited span claims followed by the claims the item at `path` owns.
pub open spec fn item_claims_spec(spans: Seq<SpanV>, items: Seq<(Seq<char>, crate::model::ItemV)>, path: Seq<char>) -> Option<Seq<ProjectedClaimV>> {
    match find_item(items, path) {
        Some(k) => {
            let positions = applicable_spec(spans, items[k].1.spans);
            Some(spans_claims_upto(spans, positions, positions.len())
                + owner_claims_spec(item_owner(path), items[k].1.axes))
        },
        None => None,
    }
}

/// Whether every span and item of the map carries exactly the twelve axes.
pub open spec fn axes_complete(map: crate::model::KnowledgeMapV) -> bool {
    &&& forall|k: int| 0 <= k < map.spans.len() ==> #[trigger] map.spans[k].axes.len() == 12
    &&& forall|k: int| 0 <= k < map.items.len() ==> #[trigger] map.items[k].1.axes.len() == 12
}

impl KnowledgeMap {
    /// Returns claims owned by the requested span.
    pub fn span_claims(&self, span_id: &str) -> (r: Option<Vec<ProjectedClaim>>)
        requires
            axes_complete(self.deep_view()),
        ensures
            r.deep_view() == span_claims_spec(self.spans.deep_view(), span_id@),
    {
        match self.span_index(span_id) {
            Some(k) => {
                proof {
                    reveal_strlit("span:");
                    assert(self.spans.deep_view()[k as int].axes.len() == 12);
                }
                let owner = concat("span:", span_id);
                assert(owner@ =~= span_owner(span_id@));
                Some(owner_claims(owner.as_str(), &self.spans[k].axes))
            },
            None => None,
        }
    }

    /// Returns claims owned by the requested item without inherited span claims.
    pub fn local_item_claims(&self, item_path: &str) -> (r: Option<Vec<ProjectedClaim>>)
        requires
            axes_complete(self.deep_view()),
        ensures
            r.deep_view() == local_item_claims_spec(self.items.deep_view(), item_path@),
    {
        match self.item_index(item_path) {
            Some(k) => {
                proof {
                    reveal_strlit("item:");
                    assert(self.deep_view().items[k as int].1.axes.len() == 12);
                }
                let owner = concat("item:", item_path);
                assert(owner@ =~= item_owner(item_path@));
                Some(owner_claims(owner.as_str(), &self.items[k].1.axes))
            },
            None => None,
        }
    }

    /// Returns the span positions from the outermost ancestor down to span `id`.
    fn chain_positions(&self, id: &str, fuel: usize) -> (r: Vec<usize>)
        ensures
            r@.len() == chain(self.spans.deep_view(), id@, fuel as nat).len(),
            forall|i: int| 0 <= i < r@.len() ==> r@[i] as int == #[trigger] chain(self.spans.deep_view(), id@, fuel as nat)[i],
            forall|i: int| 0 <= i < r@.len() ==> r@[i] < self.spans@.len(),
        decreases fuel,
    {
        if fuel == 0 {
            return Vec::new();
        }
        match self.span_index(id) {
            None => Vec::new(),
            Some(k) => {
                let mut r = match &self.spans[k].parent {
                    Some(parent) => self.chain_positions(parent.as_str(), fuel - 1),
                    None => Vec::new(),
                };
                r.push(k);
                r
            },
        }
    }

    /// Returns the item's applicable span positions in ancestor-first order.
    fn applicable_positions(&self, item: &Item) -> (r: Vec<usize>)
        ensures
            r@.len() == applicable_spec(self.spans.deep_view(), item.spans.deep_view()).len(),
            forall|i: int| 0 <= i < r@.len() ==> r@[i] as int == #[trigger] applicable_spec(self.spans.deep_view(), item.spans.deep_view())[i],
            forall|i: int| 0 <= i < r@.len() ==> r@[i] < self.spans@.len(),
    {
        let ghost spans = self.spans.deep_view();
        let ghost ids = item.spans.deep_view();
        let mut r: Vec<usize> = Vec::new();
        let mut i: usize = 0;
        while i < item.spans.len()
            invariant
                i <= ids.len(),
                ids == item.spans.deep_view(),
                spans == self.spans.deep_view(),
                r@.map_values(|k: usize| k as int) == dedup_first(chains_upto(spans, ids, i as nat)),
                forall|m: int| 0 <= m < r@.len() ==> r@[m] < self.spans@.len(),
            decreases ids.len() - i,
        {
            let c = self.chain_positions(item.spans[i].as_str(), self.spans.len());
            let ghost before = chains_upto(spans, ids, i as nat);
            let ghost whole = chain(spans, ids[i as int], spans.len());
            let mut j: usize = 0;
            while j < c.len()
                invariant
                    i < ids.len(),
                    j <= c@.len(),
                    c@.len() == whole.len(),
                    forall|m: int| 0 <= m < c@.len() ==> c@[m] as int == #[trigger] whole[m],
                    forall|m: int| 0 <= m < c@.len() ==> c@[m] < self.spans@.len(),
                    r@.map_values(|k: usize| k as int) == dedup_first(before + whole.take(j as int)),
                    forall|m: int| 0 <= m < r@.len() ==> r@[m] < self.spans@.len(),
                decreases c@.len() - j,
            {
                let k = c[j];
                let ghost prev = r@.map_values(|x: usize| x as int);
                assert((before + whole.take(j + 1)).drop_last() =~= before + whole.take(j as int));
                assert((before + whole.take(j + 1)).last() == k as int);
                let mut seen = false;
                let mut m: usize = 0;
                while m < r.len()
                    invariant
                        m <= r@.len(),
                        prev == r@.map_values(|x: usize| x as int),
                        seen == (exists|q: int| 0 <= q < m && r@[q] == k),
                    decreases r@.len() - m,
                {
                    if r[m] == k {
                        seen = true;
                    }
                    m = m + 1;
                }
                proof {
                    if seen {
                        let q = choose|q: int| 0 <= q < m && r@[q] == k;
                        assert(prev[q] == k as int);
                        assert(prev.contains(k as int));
                    } else {
                        assert(!prev.contains(k as int)) by {
                            if prev.contains(k as int) {
                                let q = choose|q: int| 0 <= q < prev.len() && prev[q] == k as int;
                                assert(r@[q] == k);
                            }
                        }
                    }
                }
                if !seen {
                    r.push(k);
                    assert(r@.map_values(|x: usize| x as int) =~= prev.push(k as int));
                }
                j = j + 1;
            }
            proof {
                assert(whole.take(j as int) =~= whole);
                assert(ids.take(i + 1).len() == i + 1);
            }
            i = i + 1;
        }
        proof {
            let s = r@.map_values(|k: usize| k as int);
            assert forall|q: int| 0 <= q < r@.len() implies r@[q] as int == applicable_spec(spans, ids)[q] by {
                assert(s[q] == r@[q] as int);
            }
        }
        r
    }

    /// Returns the item's applicable spans in ancestor-first order.
    pub fn applicable_spans<'a>(&'a self, item: &Item) -> (r: Vec<&'a Span>)
        ensures
            r@.len() == applicable_spec(self.spans.deep_view(), item.spans.deep_view()).len(),
            forall|i: int| 0 <= i < r@.len() ==> (#[trigger] r@[i]).deep_view() == self.spans.deep_view()[applicable_spec(self.spans.deep_view(), item.spans.deep_view())[i]],
    {
        let positions = self.applicable_positions(item);
        let mut r: Vec<&'a Span> = Vec::new();
        let mut i: usize = 0;
        while i < positions.len()
            invariant
                i <= positions@.len(),
                r@.len() == i,
                forall|m: int| 0 <= m < positions@.len() ==> positions@[m] < self.spans@.len(),
                forall|m: int| 0 <= m < i ==> (#[trigger] r@[m]).deep_view() == self.spans.deep_view()[positions@[m] as int],
            decreases positions@.len() - i,
        {
            r.push(&self.spans[positions[i]]);
            i = i + 1;
        }
        r
    }

    /// Returns inherited span claims followed by claims owned by the requested item.
    pub fn item_claims(&self, item_path: &str) -> (r: Option<Vec<ProjectedClaim>>)
        requires
            axes_complete(self.deep_view()),
        ensures
            r.deep_view() == item_claims_spec(self.spans.deep_view(), self.items.deep_view(), item_path@),
    {
        let k = match self.item_index(item_path) {
            Some(k) => k,
            None => return None,
        };
        let ghost spans = self.spans.deep_view();
        let item = &self.items[k].1;
        let positions = self.applicable_positions(item);
        let ghost app = applicable_spec(spans, item.spans.deep_view());
        proof {
            reveal_strlit("span:");
            reveal_strlit("item:");
        }
        let mut claims: Vec<ProjectedClaim> = Vec::new();
        let mut i: usize = 0;
        while i < positions.len()
            invariant
                i <= positions@.len(),
                positions@.len() == app.len(),
                spans == self.spans.deep_view(),
                axes_complete(self.deep_view()),
                forall|m: int| 0 <= m < positions@.len() ==> positions@[m] as int == #[trigger] app[m],
                forall|m: int| 0 <= m < positions@.len() ==> positions@[m] < self.spans@.len(),
                claims.deep_view() == spans_claims_upto(spans, app, i as nat),
            decreases positions@.len() - i,
        {
            let span = &self.spans[positions[i]];
            assert(spans[app[i as int]].axes.len() == 12);
            proof {
                reveal_strlit("span:");
            }
            let owner = concat("span:", span.id.as_str());
            assert(owner@ =~= span_owner(span.id@));
            let mut more = owner_claims(owner.as_str(), &span.axes);
            let ghost left = claims.deep_view();
            let ghost right = more.deep_view();
            claims.append(&mut more);
            assert(claims.deep_view() =~= left + right);
            i = i + 1;
        }
        assert(self.deep_view().items[k as int].1.axes.len() == 12);
        let owner = concat("item:", item_path);
        assert(owner@ =~= item_owner(item_path@));
        let mut local = owner_claims(owner.as_str(), &item.axes);
        let ghost left = claims.deep_view();
        let ghost right = local.deep_view();
        claims.append(&mut local);
        assert(claims.deep_view() =~= left + right);
        Some(claims)
    }
}


// ---------------------------------------------------------------------------
// Laws of claim views.

proof fn lemma_owner_claims_owner(owner: Seq<char>, axes: Seq<AxisEntryV>, n: nat)
    ensures
        forall|k: int| 0 <= k < owner_claims_upto(owner, axes, n).len()
            ==> (#[trigger] owner_claims_upto(owner, axes, n)[k]).owner == owner,
    decreases n,
{
    if n > 0 {
        lemma_owner_claims_owner(owner, axes, (n - 1) as nat);
        let prev = owner_claims_upto(owner, axes, (n - 1) as nat);
        let more = entry_claims(owner, axis_at(n - 1), axes[n - 1].claims);
        assert forall|k: int| 0 <= k < (prev + more).len() implies (#[trigger] (prev + more)[k]).owner == owner by {
            if k >= prev.len() {
                assert((prev + more)[k] == more[k - prev.len()]);
            }
        }
    }
}

/// A local item view holds only claims the item owns: every owner label is `item:<path>`.
pub proof fn lemma_local_claims_owned(items: Seq<(Seq<char>, crate::model::ItemV)>, path: Seq<char>)
    requires
        local_item_claims_spec(items, path) is Some,
    ensures
        forall|k: int| 0 <= k < local_item_claims_spec(items, path)->Some_0.len()
            ==> (#[trigger] local_item_claims_spec(items, path)->Some_0[k]).owner == item_owner(path),
{
    let k = find_item(items, path)->Some_0;
    lemma_owner_claims_owner(item_owner(path), items[k].1.axes, items[k].1.axes.len());
}

/// A span view holds only claims the span owns: every owner label is `span:<id>`.
pub proof fn lemma_span_claims_owned(spans: Seq<SpanV>, id: Seq<char>)
    requires
        span_claims_spec(spans, id) is Some,
    ensures
        forall|k: int| 0 <= k < span_claims_spec(spans, id)->Some_0.len()
            ==> (#[trigger] span_claims_spec(spans, id)->Some_0[k]).owner == span_owner(id),
{
    let k = find_span(spans, id)->Some_0;
    lemma_owner_claims_owner(span_owner(id), spans[k].axes, spans[k].axes.len());
}

/// The span chain from `id` reaches a span without a resolvable parent within `fuel` steps.
pub open spec fn reaches_root(spans: Seq<SpanV>, id: Seq<char>, fuel: nat) -> bool
    decreases fuel,
{
    match find_span(spans, id) {
        None => true,
        Some(k) => fuel >= 1 && match spans[k].parent {
            None => true,
            Some(p) => find_span(spans, p) is None || reaches_root(spans, p, (fuel - 1) as nat),
        },
    }
}

/// The position of the parent of the span at `k`, when its parent is a span.
pub open spec fn parent_pos(spans: Seq<SpanV>, k: int) -> Option<int> {
    match spans[k].parent {
        Some(p) => find_span(spans, p),
        None => None,
    }
}

/// In `s`, each element whose parent is a span comes right after that parent.
pub open spec fn parent_precedes(spans: Seq<SpanV>, s: Seq<int>) -> bool {
    forall|x: int| 0 <= x < s.len() && 0 <= s[x] < spans.len() && #[trigger] parent_pos(spans, s[x]) is Some
        ==> x > 0 && s[x - 1] == parent_pos(spans, s[x])->Some_0
}

/// In `s`, each element whose parent is a span has that parent somewhere before it.
pub open spec fn parent_earlier(spans: Seq<SpanV>, s: Seq<int>) -> bool {
    forall|x: int| 0 <= x < s.len() && 0 <= s[x] < spans.len() && #[trigger] parent_pos(spans, s[x]) is Some
        ==> exists|y: int| 0 <= y < x && s[y] == parent_pos(spans, s[x])->Some_0
}

proof fn lemma_find_span_valid(spans: Seq<SpanV>, id: Seq<char>)
    ensures
        find_span(spans, id) is Some ==> 0 <= find_span(spans, id)->Some_0 < spans.len()
            && spans[find_span(spans, id)->Some_0].id == id,
{
    if exists|k: int| is_first_span(spans, id, k) {
        let k = choose|k: int| is_first_span(spans, id, k);
        assert(is_first_span(spans, id, k));
    }
}

proof fn lemma_chain(spans: Seq<SpanV>, id: Seq<char>, fuel: nat)
    requires
        reaches_root(spans, id, fuel),
    ensures
        parent_precedes(spans, chain(spans, id, fuel)),
        find_span(spans, id) is Some ==> chain(spans, id, fuel).len() > 0
            && chain(spans, id, fuel).last() == find_span(spans, id)->Some_0,
        forall|x: int| 0 <= x < chain(spans, id, fuel).len() ==> 0 <= #[trigger] chain(spans, id, fuel)[x] < spans.len(),
    decreases fuel,
{
    lemma_find_span_valid(spans, id);
    if fuel > 0 {
        match find_span(spans, id) {
            None => {},
            Some(k) => match spans[k].parent {
                Some(p) => {
                    lemma_find_span_valid(spans, p);
                    let prev = chain(spans, p, (fuel - 1) as nat);
                    let c = prev.push(k);
                    if find_span(spans, p) is Some {
                        lemma_chain(spans, p, (fuel - 1) as nat);
                    } else {
                        assert(prev.len() == 0) by {
                            if fuel - 1 > 0 {
                            }
                        }
                    }
                    assert forall|x: int| 0 <= x < c.len() implies 0 <= #[trigger] c[x] < spans.len() by {
                        if x < prev.len() {
                            assert(c[x] == prev[x]);
                        }
                    }
                    assert forall|x: int| 0 <= x < c.len() && 0 <= c[x] < spans.len() && #[trigger] parent_pos(spans, c[x]) is Some
                        implies x > 0 && c[x - 1] == parent_pos(spans, c[x])->Some_0 by {
                        if x < prev.len() {
                            assert(c[x] == prev[x]);
                            if x > 0 {
                                assert(c[x - 1] == prev[x - 1]);
                            }
                        } else {
                            assert(c[x] == k);
                            assert(parent_pos(spans, k) == find_span(spans, p));
                            assert(prev.len() > 0);
                            assert(c[x - 1] == prev.last());
                        }
                    }
                },
                None => {
                    assert(parent_pos(spans, k) is None);
                },
            },
        }
    }
}

proof fn lemma_chains(spans: Seq<SpanV>, ids: Seq<Seq<char>>, n: nat)
    requires
        n <= ids.len(),
        forall|j: int| 0 <= j < ids.len() ==> reaches_root(spans, #[trigger] ids[j], spans.len()),
    ensures
        parent_earlier(spans, chains_upto(spans, ids, n)),
        forall|x: int| 0 <= x < chains_upto(spans, ids, n).len() ==> 0 <= #[trigger] chains_upto(spans, ids, n)[x] < spans.len(),
    decreases n,
{
    if n > 0 {
        lemma_chains(spans, ids, (n - 1) as nat);
        let prev = chains_upto(spans, ids, (n - 1) as nat);
        let c = chain(spans, ids[n - 1], spans.len());
        lemma_chain(spans, ids[n - 1], spans.len());
        let s = prev + c;
        assert forall|x: int| 0 <= x < s.len() implies 0 <= #[trigger] s[x] < spans.len() by {
            if x < prev.len() {
                assert(s[x] == prev[x]);
            } else {
                assert(s[x] == c[x - prev.len()]);
            }
        }
        assert forall|x: int| 0 <= x < s.len() && 0 <= s[x] < spans.len() && #[trigger] parent_pos(spans, s[x]) is Some
            implies exists|y: int| 0 <= y < x && s[y] == parent_pos(spans, s[x])->Some_0 by {
            if x < prev.len() {
                assert(s[x] == prev[x]);
                let y = choose|y: int| 0 <= y < x && prev[y] == parent_pos(spans, prev[x])->Some_0;
                assert(s[y] == prev[y]);
            } else {
                let z = x - prev.len();
                assert(s[x] == c[z]);
                assert(z > 0 && c[z - 1] == parent_pos(spans, c[z])->Some_0);
                assert(s[x - 1] == c[z - 1]);
            }
        }
    }
}

proof fn lemma_dedup(spans: Seq<SpanV>, s: Seq<int>)
    requires
        parent_earlier(spans, s),
        forall|x: int| 0 <= x < s.len() ==> 0 <= #[trigger] s[x] < spans.len(),
    ensures
        parent_earlier(spans, dedup_first(s)),
        dedup_first(s).no_duplicates(),
        forall|x: int| 0 <= x < s.len() ==> dedup_first(s).contains(#[trigger] s[x]),
        forall|x: int| 0 <= x < dedup_first(s).len() ==> s.contains(#[trigger] dedup_first(s)[x]),
    decreases s.len(),
{
    if s.len() > 0 {
        let pre = s.drop_last();
        assert forall|x: int| 0 <= x < pre.len() implies 0 <= #[trigger] pre[x] < spans.len() by {
            assert(pre[x] == s[x]);
        }
        assert forall|x: int| 0 <= x < pre.len() && 0 <= pre[x] < spans.len() && #[trigger] parent_pos(spans, pre[x]) is Some
            implies exists|y: int| 0 <= y < x && pre[y] == parent_pos(spans, pre[x])->Some_0 by {
            assert(pre[x] == s[x]);
            let y = choose|y: int| 0 <= y < x && s[y] == parent_pos(spans, s[x])->Some_0;
            assert(pre[y] == s[y]);
        }
        lemma_dedup(spans, pre);
        let a = dedup_first(pre);
        let last = s.last();
        if a.contains(last) {
            assert forall|x: int| 0 <= x < s.len() implies dedup_first(s).contains(#[trigger] s[x]) by {
                if x < pre.len() {
                    assert(s[x] == pre[x]);
                }
            }
            assert forall|x: int| 0 <= x < a.len() implies s.contains(#[trigger] a[x]) by {
                assert(pre.contains(a[x]));
                let y = choose|y: int| 0 <= y < pre.len() && pre[y] == a[x];
                assert(s[y] == pre[y]);
            }
        } else {
            let b = a.push(last);
            assert(b.no_duplicates()) by {
                assert forall|x: int, y: int| 0 <= x < b.len() && 0 <= y < b.len() && x != y implies b[x] != b[y] by {
                    if x < a.len() && y < a.len() {
                    } else if x == a.len() {
                        assert(b[x] == last);
                        assert(b[y] == a[y]);
                    } else {
                        assert(b[y] == last);
                        assert(b[x] == a[x]);
                    }
                }
            }
            assert forall|x: int| 0 <= x < s.len() implies b.contains(#[trigger] s[x]) by {
                if x < pre.len() {
                    assert(s[x] == pre[x]);
                    let y = choose|y: int| 0 <= y < a.len() && a[y] == pre[x];
                    assert(b[y] == a[y]);
                } else {
                    assert(b[a.len() as int] == last);
                }
            }
            assert forall|x: int| 0 <= x < b.len() implies s.contains(#[trigger] b[x]) by {
                if x < a.len() {
                    assert(b[x] == a[x]);
                    assert(pre.contains(a[x]));
                    let y = choose|y: int| 0 <= y < pre.len() && pre[y] == a[x];
                    assert(s[y] == pre[y]);
                } else {
                    assert(s[s.len() - 1] == last);
                }
            }
            assert forall|x: int| 0 <= x < b.len() && 0 <= b[x] < spans.len() && #[trigger] parent_pos(spans, b[x]) is Some
                implies exists|y: int| 0 <= y < x && b[y] == parent_pos(spans, b[x])->Some_0 by {
                if x < a.len() {
                    assert(b[x] == a[x]);
                    let y = choose|y: int| 0 <= y < x && a[y] == parent_pos(spans, a[x])->Some_0;
                    assert(b[y] == a[y]);
                } else {
                    let q = parent_pos(spans, last)->Some_0;
                    assert(s[s.len() - 1] == last);
                    let y = choose|y: int| 0 <= y < s.len() - 1 && s[y] == q;
                    assert(pre[y] == s[y]);
                    assert(a.contains(q));
                    let w = choose|w: int| 0 <= w < a.len() && a[w] == q;
                    assert(b[w] == a[w]);
                }
            }
        }
    }
}

/// Whether position `q` is a span that its own identifier finds.
pub open spec fn found_position(spans: Seq<SpanV>, q: int) -> bool {
    0 <= q < spans.len() && find_span(spans, spans[q].id) == Some(q)
}

/// The claims of the spans at the first `n` listed positions, each looked up by its
/// identifier as [`span_claims_spec`] gives them.
pub open spec fn span_claims_by_id(spans: Seq<SpanV>, positions: Seq<int>, n: nat) -> Seq<ProjectedClaimV>
    decreases n,
{
    if n == 0 {
        Seq::empty()
    } else {
        span_claims_by_id(spans, positions, (n - 1) as nat) + match span_claims_spec(
            spans,
            spans[positions[n - 1]].id,
        ) {
            Some(c) => c,
            None => Seq::empty(),
        }
    }
}

proof fn lemma_chain_found(spans: Seq<SpanV>, id: Seq<char>, fuel: nat)
    ensures
        forall|x: int| 0 <= x < chain(spans, id, fuel).len() ==> found_position(spans, #[trigger] chain(spans, id, fuel)[x]),
    decreases fuel,
{
    lemma_find_span_valid(spans, id);
    if fuel > 0 {
        match find_span(spans, id) {
            None => {},
            Some(k) => {
                assert(found_position(spans, k));
                match spans[k].parent {
                    Some(parent) => {
                        lemma_chain_found(spans, parent, (fuel - 1) as nat);
                        let c = chain(spans, parent, (fuel - 1) as nat);
                        assert forall|x: int| 0 <= x < c.push(k).len() implies found_position(spans, #[trigger] c.push(k)[x]) by {
                            if x < c.len() {
                                assert(c.push(k)[x] == c[x]);
                            }
                        }
                    },
                    None => {
                        assert(seq![k][0] == k);
                    },
                }
            },
        }
    }
}

proof fn lemma_chains_found(spans: Seq<SpanV>, ids: Seq<Seq<char>>, n: nat)
    ensures
        forall|x: int| 0 <= x < chains_upto(spans, ids, n).len() ==> found_position(spans, #[trigger] chains_upto(spans, ids, n)[x]),
    decreases n,
{
    if n > 0 {
        lemma_chains_found(spans, ids, (n - 1) as nat);
        let a = chains_upto(spans, ids, (n - 1) as nat);
        let b = chain(spans, ids[n - 1], spans.len());
        lemma_chain_found(spans, ids[n - 1], spans.len());
        assert forall|x: int| 0 <= x < (a + b).len() implies found_position(spans, #[trigger] (a + b)[x]) by {
            if x < a.len() {
                assert((a + b)[x] == a[x]);
            } else {
                assert((a + b)[x] == b[x - a.len()]);
            }
        }
    }
}

proof fn lemma_dedup_from(s: Seq<int>)
    ensures
        forall|x: int| 0 <= x < dedup_first(s).len() ==> s.contains(#[trigger] dedup_first(s)[x]),
    decreases s.len(),
{
    if s.len() > 0 {
        let pre = s.drop_last();
        lemma_dedup_from(pre);
        let d = dedup_first(s);
        assert forall|x: int| 0 <= x < d.len() implies s.contains(#[trigger] d[x]) by {
            let dp = dedup_first(pre);
            if x < dp.len() {
                assert(d[x] == dp[x]);
                let i = choose|i: int| 0 <= i < pre.len() && pre[i] == dp[x];
                assert(s[i] == pre[i]);
            } else {
                assert(d[x] == s.last());
                assert(s[s.len() - 1] == s.last());
            }
        }
    }
}

proof fn lemma_claims_by_id(spans: Seq<SpanV>, positions: Seq<int>, n: nat)
    requires
        n <= positions.len(),
        forall|x: int| 0 <= x < positions.len() ==> found_position(spans, #[trigger] positions[x]),
    ensures
        span_claims_by_id(spans, positions, n) == spans_claims_upto(spans, positions, n),
    decreases n,
{
    if n > 0 {
        lemma_claims_by_id(spans, positions, (n - 1) as nat);
        assert(found_position(spans, positions[n - 1]));
    }
}

/// The claims shown for an item are, in order, the claims of each span that applies to
/// it, each as looked up by that span's identifier, followed by the claims the item
/// owns; a path that names no item has none.
pub proof fn lemma_item_claims_compose(spans: Seq<SpanV>, items: Seq<(Seq<char>, crate::model::ItemV)>, path: Seq<char>)
    ensures
        item_claims_spec(spans, items, path) == match local_item_claims_spec(items, path) {
            Some(own) => {
                let ps = applicable_spec(spans, items[find_item(items, path)->Some_0].1.spans);
                Some(span_claims_by_id(spans, ps, ps.len()) + own)
            },
            None => None,
        },
        local_item_claims_spec(items, path) is Some ==> ({
            let ps = applicable_spec(spans, items[find_item(items, path)->Some_0].1.spans);
            forall|x: int| 0 <= x < ps.len() ==> span_claims_spec(spans, spans[#[trigger] ps[x]].id) is Some
        }),
{
    match find_item(items, path) {
        Some(k) => {
            let ids = items[k].1.spans;
            let c = chains_upto(spans, ids, ids.len());
            let ps = applicable_spec(spans, ids);
            lemma_chains_found(spans, ids, ids.len());
            lemma_dedup_from(c);
            assert forall|x: int| 0 <= x < ps.len() implies found_position(spans, #[trigger] ps[x]) by {
                let i = choose|i: int| 0 <= i < c.len() && c[i] == ps[x];
                assert(found_position(spans, c[i]));
            }
            lemma_claims_by_id(spans, ps, ps.len());
        },
        None => {},
    }
}

/// The spans that apply to an item hold each span once, and when every membership's
/// parent chain reaches a root (the parent links have no cycle), every applicable span's
/// parent span comes before it.
pub proof fn lemma_applicable_spans_order(spans: Seq<SpanV>, ids: Seq<Seq<char>>)
    ensures
        applicable_spec(spans, ids).no_duplicates(),
        (forall|j: int| 0 <= j < ids.len() ==> reaches_root(spans, #[trigger] ids[j], spans.len()))
            ==> parent_earlier(spans, applicable_spec(spans, ids)),
{
    lemma_dedup_distinct(chains_upto(spans, ids, ids.len()));
    if forall|j: int| 0 <= j < ids.len() ==> reaches_root(spans, #[trigger] ids[j], spans.len()) {
        lemma_chains(spans, ids, ids.len());
        lemma_dedup(spans, chains_upto(spans, ids, ids.len()));
    }
}

proof fn lemma_dedup_distinct(s: Seq<int>)
    ensures
        dedup_first(s).no_duplicates(),
    decreases s.len(),
{
    if s.len() > 0 {
        lemma_dedup_distinct(s.drop_last());
        let a = dedup_first(s.drop_last());
        if !a.contains(s.last()) {
            let b = a.push(s.last());
            assert forall|x: int, y: int| 0 <= x < b.len() && 0 <= y < b.len() && x != y implies b[x] != b[y] by {
                if x < a.len() && y < a.len() {
                } else if x == a.len() {
                    assert(b[y] == a[y]);
                } else {
                    assert(b[x] == a[x]);
                }
            }
        }
    }
}

/// Three-way comparison of integers: -1, 0 or 1.
pub open spec fn int_order(a: int, b: int) -> int {
    if a < b {
        -1
    } else if a > b {
        1
    } else {
        0
    }
}

/// Three-way lexicographic comparison of strings by character code (the order of `str`).
pub open spec fn str_order(a: Seq<char>, b: Seq<char>) -> int
    decreases a.len(),
{
    if a.len() == 0 {
        if b.len() == 0 {
            0
        } else {
            -1
        }
    } else if b.len() == 0 {
        1
    } else if a[0] < b[0] {
        -1
    } else if a[0] > b[0] {
        1
    } else {
        str_order(a.drop_first(), b.drop_first())
    }
}

/// Display order of a claim kind: objectives, constraints, assumptions.
pub open spec fn kind_rank(kind: ClaimKind) -> int {
    match kind {
        ClaimKind::Objective => 0,
        ClaimKind::Constraint => 1,
        ClaimKind::Assumption => 2,
    }
}

/// Comparison of two projected claims under one grouping key.
pub open spec fn key_order(key: GroupKey, left: ProjectedClaimV, right: ProjectedClaimV) -> int {
    match key {
        GroupKey::Owner => str_order(left.owner, right.owner),
        GroupKey::Kind => int_order(kind_rank(left.claim.kind), kind_rank(right.claim.kind)),
        GroupKey::Axis => int_order(axis_index(left.axis) as int, axis_index(right.axis) as int),
    }
}

/// Lexicographic comparison under a sequence of keys.
pub open spec fn lex_order(left: ProjectedClaimV, right: ProjectedClaimV, keys: Seq<GroupKey>) -> int
    decreases keys.len(),
{
    if keys.len() == 0 {
        0
    } else {
        let c = key_order(keys[0], left, right);
        if c != 0 {
            c
        } else {
            lex_order(left, right, keys.drop_first())
        }
    }
}

/// The projection order: the configured keys, then owner, axis and kind.
pub open spec fn claims_order(left: ProjectedClaimV, right: ProjectedClaimV, keys: Seq<GroupKey>) -> int {
    lex_order(left, right, keys + seq![GroupKey::Owner, GroupKey::Axis, GroupKey::Kind])
}

proof fn lemma_lex_zero(a: ProjectedClaimV, b: ProjectedClaimV, keys: Seq<GroupKey>)
    ensures
        lex_order(a, b, keys) == 0 <==> forall|i: int| 0 <= i < keys.len() ==> #[trigger] key_order(keys[i], a, b) == 0,
    decreases keys.len(),
{
    if keys.len() > 0 {
        lemma_lex_zero(a, b, keys.drop_first());
        if lex_order(a, b, keys) == 0 {
            assert forall|i: int| 0 <= i < keys.len() implies #[trigger] key_order(keys[i], a, b) == 0 by {
                if i > 0 {
                    assert(keys.drop_first()[i - 1] == keys[i]);
                }
            }
        }
        if forall|i: int| 0 <= i < keys.len() ==> #[trigger] key_order(keys[i], a, b) == 0 {
            assert(key_order(keys[0], a, b) == 0);
            assert forall|i: int| 0 <= i < keys.drop_first().len() implies #[trigger] key_order(keys.drop_first()[i], a, b) == 0 by {
                assert(key_order(keys[i + 1], a, b) == 0);
            }
        }
    }
}

/// Two projected claims compare equal under any grouping exactly when they share owner,
/// axis and kind, and swapping them reverses the comparison.
pub proof fn lemma_claims_order_equal(a: ProjectedClaimV, b: ProjectedClaimV, keys: Seq<GroupKey>)
    ensures
        claims_order(a, b, keys) == -claims_order(b, a, keys),
        claims_order(a, b, keys) == 0 <==> (a.owner == b.owner && a.axis == b.axis && a.claim.kind == b.claim.kind),
{
    let ext = keys + seq![GroupKey::Owner, GroupKey::Axis, GroupKey::Kind];
    lemma_lex_order(a, b, b, ext);
    lemma_lex_zero(a, b, ext);
    lemma_str_order_antisym(a.owner, b.owner);
    let n = keys.len() as int;
    assert(ext[n] == GroupKey::Owner);
    assert(ext[n + 1] == GroupKey::Axis);
    assert(ext[n + 2] == GroupKey::Kind);
    if claims_order(a, b, keys) == 0 {
        assert(key_order(ext[n], a, b) == 0);
        assert(key_order(ext[n + 1], a, b) == 0);
        assert(key_order(ext[n + 2], a, b) == 0);
    }
    if a.owner == b.owner && a.axis == b.axis && a.claim.kind == b.claim.kind {
        assert forall|i: int| 0 <= i < ext.len() implies #[trigger] key_order(ext[i], a, b) == 0 by {
            lemma_str_order_antisym(a.owner, b.owner);
        }
    }
}

/// `p` shows that `output` is `input` stably sorted by [`claims_order`].
pub open spec fn is_sort_witness(
    input: Seq<ProjectedClaimV>,
    output: Seq<ProjectedClaimV>,
    keys: Seq<GroupKey>,
    p: Seq<int>,
) -> bool {
    &&& output.len() == input.len()
    &&& p.len() == input.len()
    &&& forall|k: int| 0 <= k < p.len() ==> 0 <= #[trigger] p[k] < input.len()
    &&& forall|k: int, l: int| 0 <= k < l < p.len() ==> p[k] != p[l]
    &&& forall|k: int| 0 <= k < output.len() ==> #[trigger] output[k] == input[p[k]]
    &&& forall|k: int, l: int|
        0 <= k < l < output.len() ==> claims_order(output[k], output[l], keys) < 0 || (claims_order(
            output[k],
            output[l],
            keys,
        ) == 0 && p[k] < p[l])
}

/// `output` is a permutation of `input`, ordered by [`claims_order`], and claims that compare
/// equal keep their input order.
pub open spec fn stable_sorted(
    input: Seq<ProjectedClaimV>,
    output: Seq<ProjectedClaimV>,
    keys: Seq<GroupKey>,
) -> bool {
    exists|p: Seq<int>| is_sort_witness(input, output, keys, p)
}

/// Grouping keys are usable: at least one, none repeated.
pub open spec fn valid_grouping(keys: Seq<GroupKey>) -> bool {
    keys.len() > 0 && keys.no_duplicates()
}

pub proof fn lemma_str_order_antisym(a: Seq<char>, b: Seq<char>)
    ensures
        str_order(a, b) == -str_order(b, a),
        str_order(a, b) == 0 <==> a == b,
    decreases a.len(),
{
    if a.len() > 0 && b.len() > 0 {
        lemma_str_order_antisym(a.drop_first(), b.drop_first());
        if str_order(a, b) == 0 {
            assert(a[0] == b[0]);
            assert(a.drop_first() =~= b.drop_first());
            assert(a =~= seq![a[0]] + a.drop_first());
            assert(b =~= seq![b[0]] + b.drop_first());
            assert(a =~= b);
        }
        if a == b {
            assert(a.drop_first() == b.drop_first());
        }
    } else if a.len() == 0 && b.len() == 0 {
        assert(a =~= b);
    }
}

pub proof fn lemma_str_order_trans(a: Seq<char>, b: Seq<char>, c: Seq<char>)
    requires
        str_order(a, b) < 0,
        str_order(b, c) < 0,
    ensures
        str_order(a, c) < 0,
    decreases a.len(),
{
    if a.len() > 0 && b.len() > 0 && c.len() > 0 {
        if a[0] == b[0] && b[0] == c[0] {
            lemma_str_order_trans(a.drop_first(), b.drop_first(), c.drop_first());
        }
    }
}

proof fn lemma_key_order(key: GroupKey, a: ProjectedClaimV, b: ProjectedClaimV, c: ProjectedClaimV)
    ensures
        key_order(key, a, b) == -key_order(key, b, a),
        -1 <= key_order(key, a, b) <= 1,
        key_order(key, a, b) <= 0 && key_order(key, b, c) <= 0 ==> key_order(key, a, c) <= 0,
        (key_order(key, a, b) < 0 && key_order(key, b, c) <= 0) ==> key_order(key, a, c) < 0,
        (key_order(key, a, b) <= 0 && key_order(key, b, c) < 0) ==> key_order(key, a, c) < 0,
{
    lemma_str_order_antisym(a.owner, b.owner);
    lemma_str_order_antisym(b.owner, c.owner);
    lemma_str_order_antisym(a.owner, c.owner);
    lemma_str_order_bounds(a.owner, b.owner);
    if str_order(a.owner, b.owner) < 0 && str_order(b.owner, c.owner) < 0 {
        lemma_str_order_trans(a.owner, b.owner, c.owner);
    }
}

pub proof fn lemma_str_order_bounds(a: Seq<char>, b: Seq<char>)
    ensures
        -1 <= str_order(a, b) <= 1,
    decreases a.len(),
{
    if a.len() > 0 && b.len() > 0 {
        lemma_str_order_bounds(a.drop_first(), b.drop_first());
    }
}

/// Lexicographic comparison is antisymmetric and transitive for any key sequence.
pub proof fn lemma_lex_order(a: ProjectedClaimV, b: ProjectedClaimV, c: ProjectedClaimV, keys: Seq<GroupKey>)
    ensures
        lex_order(a, b, keys) == -lex_order(b, a, keys),
        lex_order(a, b, keys) <= 0 && lex_order(b, c, keys) <= 0 ==> lex_order(a, c, keys) <= 0,
        (lex_order(a, b, keys) < 0 && lex_order(b, c, keys) <= 0) ==> lex_order(a, c, keys) < 0,
        (lex_order(a, b, keys) <= 0 && lex_order(b, c, keys) < 0) ==> lex_order(a, c, keys) < 0,
    decreases keys.len(),
{
    if keys.len() > 0 {
        lemma_key_order(keys[0], a, b, c);
        lemma_key_order(keys[0], b, c, a);
        lemma_key_order(keys[0], a, c, b);
        lemma_key_order(keys[0], c, b, a);
        lemma_lex_order(a, b, c, keys.drop_first());
    }
}

proof fn lemma_insert_sorted(
    input: Seq<ProjectedClaimV>,
    out: Seq<ProjectedClaimV>,
    p: Seq<int>,
    keys: Seq<GroupKey>,
    i: int,
    j: int,
)
    requires
        0 <= i < input.len(),
        0 <= j <= out.len(),
        is_sort_witness(input.take(i), out, keys, p),
        forall|k: int| 0 <= k < j ==> claims_order(#[trigger] out[k], input[i], keys) <= 0,
        j < out.len() ==> claims_order(out[j], input[i], keys) > 0,
    ensures
        is_sort_witness(input.take(i + 1), out.insert(j, input[i]), keys, p.insert(j, i)),
{
    let x = input[i];
    let out2 = out.insert(j, x);
    let p2 = p.insert(j, i);
    let ext = keys + seq![GroupKey::Owner, GroupKey::Axis, GroupKey::Kind];
    assert forall|k: int| 0 <= k < out2.len() implies #[trigger] out2[k] == input.take(i + 1)[p2[k]] by {
        if k < j {
            assert(out2[k] == out[k]);
        } else if k > j {
            assert(out2[k] == out[k - 1]);
        }
    }
    assert forall|k: int, l: int| 0 <= k < l < p2.len() implies p2[k] != p2[l] by {
        if k < j && l > j {
            assert(p2[l] == p[l - 1]);
        } else if k > j {
            assert(p2[l] == p[l - 1]);
            assert(p2[k] == p[k - 1]);
        }
    }
    assert forall|k: int, l: int|
        0 <= k < l < out2.len() implies claims_order(out2[k], out2[l], keys) < 0 || (claims_order(
        out2[k],
        out2[l],
        keys,
    ) == 0 && p2[k] < p2[l]) by {
        if l < j {
            assert(out2[k] == out[k] && out2[l] == out[l] && p2[k] == p[k] && p2[l] == p[l]);
        } else if l == j {
            assert(out2[k] == out[k] && out2[l] == x && p2[k] == p[k] && p2[l] == i);
            assert(claims_order(out[k], x, keys) <= 0);
            assert(0 <= p[k] < i);
        } else if k < j {
            assert(out2[k] == out[k] && out2[l] == out[l - 1] && p2[k] == p[k] && p2[l] == p[l - 1]);
        } else if k == j {
            assert(out2[k] == x && out2[l] == out[l - 1] && p2[k] == i && p2[l] == p[l - 1]);
            lemma_lex_order(out[j], x, out[j], ext);
            assert(claims_order(x, out[j], keys) < 0);
            if l - 1 > j {
                assert(claims_order(out[j], out[l - 1], keys) <= 0);
                lemma_lex_order(x, out[j], out[l - 1], ext);
            }
        } else {
            assert(out2[k] == out[k - 1] && out2[l] == out[l - 1] && p2[k] == p[k - 1] && p2[l] == p[l - 1]);
        }
    }
}

impl ClaimProjection {
    /// Validates that grouping keys are present and unique.
    fn validate_grouping(group_by: &Vec<GroupKey>) -> (r: Result<(), String>)
        ensures
            group_by@.len() == 0 ==> r is Err && r->Err_0@ == "grouping requires at least one key"@,
            group_by@.len() > 0 && !group_by@.no_duplicates() ==> r is Err && r->Err_0@
                == "grouping keys must not repeat"@,
            r is Ok <==> valid_grouping(group_by@),
    {
        if group_by.len() == 0 {
            return Err(string_lit("grouping requires at least one key"));
        }
        let mut i: usize = 0;
        while i < group_by.len()
            invariant
                i <= group_by@.len(),
                forall|k: int, l: int| 0 <= k < l < i ==> group_by@[k] != group_by@[l],
            decreases group_by@.len() - i,
        {
            let mut j: usize = 0;
            while j < i
                invariant
                    j <= i < group_by@.len(),
                    forall|k: int| 0 <= k < j ==> group_by@[k] != group_by@[i as int],
                decreases i - j,
            {
                if group_by[j] == group_by[i] {
                    return Err(string_lit("grouping keys must not repeat"));
                }
                j = j + 1;
            }
            i = i + 1;
        }
        Ok(())
    }

    /// Returns the fixed display order for a claim kind.
    fn kind_order(kind: ClaimKind) -> (r: u8)
        ensures
            r as int == kind_rank(kind),
    {
        match kind {
            ClaimKind::Objective => 0,
            ClaimKind::Constraint => 1,
            ClaimKind::Assumption => 2,
        }
    }

    /// Compares two claims under one grouping key.
    fn compare_key(left: &ProjectedClaim, right: &ProjectedClaim, key: GroupKey) -> (r: i8)
        ensures
            r as int == key_order(key, left.deep_view(), right.deep_view()),
    {
        match key {
            GroupKey::Owner => compare_strings(left.owner.as_str(), right.owner.as_str()),
            GroupKey::Kind => {
                let a = Self::kind_order(left.claim.kind);
                let b = Self::kind_order(right.claim.kind);
                if a < b { -1 } else if a > b { 1 } else { 0 }
            },
            GroupKey::Axis => {
                let a = left.axis.index();
                let b = right.axis.index();
                if a < b { -1 } else if a > b { 1 } else { 0 }
            },
        }
    }

    /// Compares two claims using the configured grouping order, then owner, axis and kind.
    fn compare_claims(left: &ProjectedClaim, right: &ProjectedClaim, keys: &Vec<GroupKey>) -> (r: i8)
        ensures
            r as int == claims_order(left.deep_view(), right.deep_view(), keys@),
    {
        let ghost l = left.deep_view();
        let ghost rt = right.deep_view();
        let mut all = keys.clone();
        proof {
            assert(all@ =~= keys@);
        }
        all.push(GroupKey::Owner);
        all.push(GroupKey::Axis);
        all.push(GroupKey::Kind);
        let ghost ext = keys@ + seq![GroupKey::Owner, GroupKey::Axis, GroupKey::Kind];
        assert(all@ =~= ext);
        assert(ext.skip(0) =~= ext);
        let mut i: usize = 0;
        while i < all.len()
            invariant
                i <= all@.len(),
                all@ == ext,
                ext == keys@ + seq![GroupKey::Owner, GroupKey::Axis, GroupKey::Kind],
                l == left.deep_view(),
                rt == right.deep_view(),
                lex_order(l, rt, ext) == lex_order(l, rt, ext.skip(i as int)),
            decreases all@.len() - i,
        {
            let c = Self::compare_key(left, right, all[i]);
            assert(ext.skip(i as int)[0] == all@[i as int]);
            assert(ext.skip(i as int).drop_first() =~= ext.skip(i + 1));
            if c != 0 {
                assert(ext.skip(i as int).len() > 0);
                assert(lex_order(l, rt, ext.skip(i as int)) == c as int);
                assert(lex_order(l, rt, ext) == c as int);
                assert(claims_order(l, rt, keys@) == lex_order(l, rt, ext));
                return c;
            }
            i = i + 1;
        }
        0
    }

    /// Creates a projection ordered by the requested grouping keys.
    ///
    /// Claims that compare equal under every key keep their input order.
    pub fn new(claims: Vec<ProjectedClaim>, group_by: Vec<GroupKey>) -> (r: Result<ClaimProjection, String>)
        ensures
            group_by@.len() == 0 ==> r is Err && r->Err_0@ == "grouping requires at least one key"@,
            group_by@.len() > 0 && !group_by@.no_duplicates() ==> r is Err && r->Err_0@
                == "grouping keys must not repeat"@,
            r is Ok <==> valid_grouping(group_by@),
            r matches Ok(projection) ==> projection.group_by@ == group_by@ && stable_sorted(
                claims.deep_view(),
                projection.claims.deep_view(),
                group_by@,
            ),
    {
        match Self::validate_grouping(&group_by) {
            Err(message) => return Err(message),
            Ok(()) => {},
        }
        let ghost input = claims.deep_view();
        let ghost n = input.len();
        let mut rest = claims;
        let mut out: Vec<ProjectedClaim> = Vec::new();
        let ghost mut p: Seq<int> = Seq::empty();
        let mut i: usize = 0;
        let total = rest.len();
        while i < total
            invariant
                i <= total == n,
                input.len() == n,
                rest.deep_view() == input.subrange(i as int, n as int),
                is_sort_witness(input.take(i as int), out.deep_view(), group_by@, p),
            decreases total - i,
        {
            let ghost rest_before = rest.deep_view();
            assert(rest@.len() == rest_before.len());
            let x = rest.remove(0);
            proof {
                assert(x.deep_view() == rest_before[0]);
                assert(rest.deep_view() =~= rest_before.subrange(1, rest_before.len() as int));
                assert(rest.deep_view() =~= input.subrange(i + 1, n as int));
                assert(x.deep_view() == input[i as int]);
            }
            let ghost dv = out.deep_view();
            let mut j: usize = 0;
            let mut found = false;
            while j < out.len() && !found
                invariant
                    j <= out@.len(),
                    dv == out.deep_view(),
                    forall|k: int| 0 <= k < j ==> claims_order(#[trigger] dv[k], x.deep_view(), group_by@) <= 0,
                    found ==> j < out@.len() && claims_order(dv[j as int], x.deep_view(), group_by@) > 0,
                decreases out@.len() - j + (if found { 0int } else { 1int }),
            {
                if Self::compare_claims(&out[j], &x, &group_by) > 0 {
                    found = true;
                } else {
                    j = j + 1;
                }
            }
            proof {
                lemma_insert_sorted(input, dv, p, group_by@, i as int, j as int);
            }
            let ghost before = out@;
            out.insert(j, x);
            proof {
                assert(out.deep_view() =~= dv.insert(j as int, x.deep_view()));
                p = p.insert(j as int, i as int);
            }
            i = i + 1;
        }
        proof {
            assert(input.take(n as int) =~= input);
        }
        Ok(ClaimProjection { group_by, claims: out })
    }
}

/// Three-way comparison of two strings by character code.
pub fn compare_strings(a: &str, b: &str) -> (r: i8)
    ensures
        r as int == str_order(a@, b@),
{
    let x = crate::text::chars_of(a);
    let y = crate::text::chars_of(b);
    assert(a@.skip(0) =~= a@);
    assert(b@.skip(0) =~= b@);
    let mut i: usize = 0;
    while i < x.len() && i < y.len()
        invariant
            i <= x@.len(),
            i <= y@.len(),
            x@ == a@,
            y@ == b@,
            str_order(a@, b@) == str_order(a@.skip(i as int), b@.skip(i as int)),
        decreases x@.len() - i,
    {
        if x[i] < y[i] {
            return -1;
        }
        if x[i] > y[i] {
            return 1;
        }
        assert(a@.skip(i as int).drop_first() =~= a@.skip(i + 1));
        assert(b@.skip(i as int).drop_first() =~= b@.skip(i + 1));
        i = i + 1;
    }
    if i == x.len() && i == y.len() {
        0
    } else if i == x.len() {
        -1
    } else {
        1
    }
}

} // verus!
