//! The zone registry: allocates zone identifiers, records which plugin
//! owns which zone, and answers the host's per-frame queries.

use ratatui::layout::Rect;
use vstd::prelude::*;

use crate::laws::{lemma_apply_len, lemma_apply_prefix};
use crate::plugin::ZonePlugin;
use crate::terminal::rect_new;
use crate::zone::{ZoneHint, ZoneId, ZoneRequest, ZoneRequestView, ZoneSpec, ZoneSpecView};

verus! {

/// The plain values of a list of zones.
pub open spec fn spec_views(zones: Seq<ZoneSpec>) -> Seq<ZoneSpecView> {
    zones.map_values(|z: ZoneSpec| z@)
}

/// The plain values of a list of borrowed zones.
pub open spec fn ref_views(zones: Seq<&ZoneSpec>) -> Seq<ZoneSpecView> {
    zones.map_values(|z: &ZoneSpec| z@)
}

/// Zone `i` has identifier `i + 1`, for every position `i`.
pub open spec fn ids_sequential(zones: Seq<ZoneSpecView>) -> bool {
    forall|i: int| 0 <= i < zones.len() ==> #[trigger] zones[i].id == i + 1
}

/// No two zones share a name.
pub open spec fn names_distinct(zones: Seq<ZoneSpecView>) -> bool {
    forall|i: int, j: int|
        0 <= i < zones.len() && 0 <= j < zones.len() && i != j ==> #[trigger] zones[i].name
            != #[trigger] zones[j].name
}

/// Some zone has identifier `id`.
pub open spec fn has_id(zones: Seq<ZoneSpecView>, id: u32) -> bool {
    exists|i: int| 0 <= i < zones.len() && #[trigger] zones[i].id == id
}

/// Some zone has the name `name`.
pub open spec fn name_taken(zones: Seq<ZoneSpecView>, name: Seq<char>) -> bool {
    exists|i: int| 0 <= i < zones.len() && #[trigger] zones[i].name == name
}

/// The zones, with the area of the zone whose identifier is `id` replaced.
pub open spec fn with_area(zones: Seq<ZoneSpecView>, id: u32, area: Rect) -> Seq<ZoneSpecView> {
    Seq::new(
        zones.len(),
        |i: int|
            if zones[i].id == id {
                ZoneSpecView { area, ..zones[i] }
            } else {
                zones[i]
            },
    )
}

/// The zones, with the visibility of the zone whose identifier is `id` replaced.
pub open spec fn with_visibility(zones: Seq<ZoneSpecView>, id: u32, visible: bool) -> Seq<
    ZoneSpecView,
> {
    Seq::new(
        zones.len(),
        |i: int|
            if zones[i].id == id {
                ZoneSpecView { visible, ..zones[i] }
            } else {
                zones[i]
            },
    )
}

/// The plain values of a list of requests.
pub open spec fn request_views(requests: Seq<ZoneRequest>) -> Seq<ZoneRequestView> {
    requests.map_values(|r: ZoneRequest| r@)
}

/// The plain values of a list of registration results.
pub open spec fn result_views(results: Seq<RegistrationResult>) -> Seq<RegistrationView> {
    results.map_values(|r: RegistrationResult| r@)
}

/// The reason given when a request names a zone that already exists.
pub open spec fn denial_reason(name: Seq<char>) -> Seq<char> {
    "zone '"@ + name + "' already registered"@
}

/// The zone that a granted request becomes: it keeps the request's name,
/// label, hint and order, is visible, and has ratatui's default rectangle
/// (at (0, 0), of size 0 by 0) as its area until the host assigns one.
pub open spec fn granted_zone(request: ZoneRequestView, id: u32) -> ZoneSpecView {
    ZoneSpecView {
        id,
        name: request.name,
        label: request.label,
        hint: request.hint,
        area: rect_new(0, 0, 0, 0),
        visible: true,
        order: request.order,
    }
}

/// The answer to one request, given the zones registered before it: a
/// request whose name is taken is denied, any other is granted the next
/// identifier.
pub open spec fn decision(zones: Seq<ZoneSpecView>, request: ZoneRequestView) -> RegistrationView {
    if name_taken(zones, request.name) {
        RegistrationView::Denied(denial_reason(request.name))
    } else {
        RegistrationView::Granted((zones.len() + 1) as u32)
    }
}

/// The zones after one request.
pub open spec fn apply_request(zones: Seq<ZoneSpecView>, request: ZoneRequestView) -> Seq<ZoneSpecView> {
    if name_taken(zones, request.name) {
        zones
    } else {
        zones.push(granted_zone(request, (zones.len() + 1) as u32))
    }
}

/// The zones after a list of requests, taken in order.
pub open spec fn apply_requests(zones: Seq<ZoneSpecView>, requests: Seq<ZoneRequestView>) -> Seq<
    ZoneSpecView,
>
    decreases requests.len(),
{
    if requests.len() == 0 {
        zones
    } else {
        apply_request(apply_requests(zones, requests.drop_last()), requests.last())
    }
}

/// The answers to a list of requests, one per request, in order.
pub open spec fn decisions(zones: Seq<ZoneSpecView>, requests: Seq<ZoneRequestView>) -> Seq<
    RegistrationView,
>
    decreases requests.len(),
{
    if requests.len() == 0 {
        Seq::empty()
    } else {
        decisions(zones, requests.drop_last()).push(
            decision(apply_requests(zones, requests.drop_last()), requests.last()),
        )
    }
}

/// How a registration that processed `requests` left the registry: if
/// there are identifiers enough for all the zones it grants, the requests
/// were applied in order and each got its answer; otherwise nothing
/// changed and there is no answer.
pub open spec fn registration_outcome(
    before: Seq<ZoneSpecView>,
    requests: Seq<ZoneRequestView>,
    after: Seq<ZoneSpecView>,
    results: Seq<RegistrationView>,
) -> bool {
    if apply_requests(before, requests).len() < u32::MAX {
        after == apply_requests(before, requests) && results == decisions(before, requests)
    } else {
        after == before && results.len() == 0
    }
}

/// The predicate "visible, with hint `hint`".
pub open spec fn shown_as(hint: ZoneHint) -> spec_fn(ZoneSpecView) -> bool {
    |z: ZoneSpecView| z.hint == hint && z.visible
}

/// The predicate "with display order `k`".
pub open spec fn has_order(k: int) -> spec_fn(ZoneSpecView) -> bool {
    |z: ZoneSpecView| z.order == k
}

/// The zones of order below `k`: first those of order 0, then those of
/// order 1, and so on, each group in its original order.
pub open spec fn order_buckets(zones: Seq<ZoneSpecView>, k: int) -> Seq<ZoneSpecView>
    decreases k,
{
    if k <= 0 {
        Seq::empty()
    } else {
        order_buckets(zones, k - 1) + zones.filter(has_order(k - 1))
    }
}

/// The zones stably sorted by display order: lower orders first, and zones
/// of equal order in their original order.
pub open spec fn sorted_by_order(zones: Seq<ZoneSpecView>) -> Seq<ZoneSpecView> {
    order_buckets(zones, 256)
}

/// What the host lists for a hint: the visible zones with that hint,
/// stably sorted by display order.
pub open spec fn listed(zones: Seq<ZoneSpecView>, hint: ZoneHint) -> Seq<ZoneSpecView> {
    sorted_by_order(zones.filter(shown_as(hint)))
}

/// Filtering one more element of a sequence.
proof fn lemma_filter_take_step<A>(s: Seq<A>, p: spec_fn(A) -> bool, i: int)
    requires
        0 <= i < s.len(),
    ensures
        s.take(i + 1).filter(p) == (if p(s[i]) {
            s.take(i).filter(p).push(s[i])
        } else {
            s.take(i).filter(p)
        }),
{
    reveal(Seq::filter);
    assert(s.take(i + 1).drop_last() =~= s.take(i));
}

/// Registration result: whether a zone request was granted or denied.
#[derive(Debug)]
pub enum RegistrationResult {
    /// Zone was granted with this ID.
    Granted(ZoneId),
    /// Zone was denied with a reason.
    Denied(String),
}

/// A registration result as plain values.
pub enum RegistrationView {
    Granted(u32),
    Denied(Seq<char>),
}

impl View for RegistrationResult {
    type V = RegistrationView;

    open spec fn view(&self) -> RegistrationView {
        match self {
            RegistrationResult::Granted(id) => RegistrationView::Granted(id@),
            RegistrationResult::Denied(reason) => RegistrationView::Denied(reason@),
        }
    }
}

/// The reason given when a request names a zone that already exists:
/// `zone '<name>' already registered`.
fn denial_message(name: &String) -> (m: String)
    ensures
        m@ == denial_reason(name@),
{
    let mut m = String::from_str("zone '");
    m.append(name.as_str());
    m.append("' already registered");
    m
}

/// Whether `name` is one of `names`.
fn name_listed(names: &Vec<String>, name: &String) -> (b: bool)
    ensures
        b == exists|i: int| 0 <= i < names@.len() && #[trigger] names@[i]@ == name@,
{
    let n: usize = names.len();
    for i in 0..n
        invariant
            n == names@.len(),
            forall|j: int| 0 <= j < i ==> #[trigger] names@[j]@ != name@,
    {
        if names[i] == *name {
            return true;
        }
    }
    false
}

/// Manages zone allocation and plugin ownership.
///
/// Create one per application. Register plugins at startup, then query it
/// each frame for the current zone layout. `P` is the handle by which the
/// host holds a plugin (typically `Arc<dyn ZonePlugin>`).
pub struct ZoneRegistry<P> {
    next_id: u32,
    zones: Vec<ZoneSpec>,
    // Each plugin handle is stored once per registration that granted it a
    // zone, and zone `i` is owned by `plugins[owner_index[i]]`. Identifiers
    // are positions plus one, so a zone is found by position and no copy of
    // a handle is ever made.
    plugins: Vec<P>,
    owner_index: Vec<usize>,
}

impl<P> View for ZoneRegistry<P> {
    type V = Seq<ZoneSpecView>;

    /// The registered zones, in registration order.
    closed spec fn view(&self) -> Seq<ZoneSpecView> {
        spec_views(self.zones@)
    }
}

impl<P> ZoneRegistry<P> {
    /// The plugin that owns each zone, position by position.
    pub closed spec fn owners(&self) -> Seq<P> {
        Seq::new(self.zones@.len(), |i: int| self.plugins@[self.owner_index@[i] as int])
    }

    /// The registry's invariant: zone `i` has identifier `i + 1`, names are
    /// distinct, and every zone has an owner.
    pub closed spec fn wf(&self) -> bool {
        &&& self.owner_index@.len() == self.zones@.len()
        &&& forall|i: int|
            0 <= i < self.owner_index@.len() ==> #[trigger] self.owner_index@[i]
                < self.plugins@.len()
        &&& self.next_id as int == self.zones@.len() + 1
        &&& ids_sequential(self@)
        &&& names_distinct(self@)
    }

    /// A well-formed registry numbers its zones from one and never repeats
    /// a name; it has fewer zones than there are identifiers.
    pub proof fn lemma_wf(&self)
        requires
            self.wf(),
        ensures
            ids_sequential(self@),
            names_distinct(self@),
            self@.len() < u32::MAX,
            self.owners().len() == self@.len(),
    {
    }

    /// Creates an empty registry.
    pub fn new() -> (r: Self)
        ensures
            r.wf(),
            r@ == Seq::<ZoneSpecView>::empty(),
            r.owners() == Seq::<P>::empty(),
    {
        let r = ZoneRegistry {
            next_id: 1,
            zones: Vec::new(),
            plugins: Vec::new(),
            owner_index: Vec::new(),
        };
        proof {
            assert(r@ =~= Seq::<ZoneSpecView>::empty());
            assert(r.owners() =~= Seq::<P>::empty());
        }
        r
    }

    /// Total number of registered zones.
    pub fn len(&self) -> (n: usize)
        ensures
            n == self@.len(),
    {
        self.zones.len()
    }

    /// Whether the registry has no zones.
    pub fn is_empty(&self) -> (b: bool)
        ensures
            b == (self@.len() == 0),
    {
        self.zones.len() == 0
    }

    /// All zones, unfiltered, in registration order.
    pub fn all_zones(&self) -> (zones: &[ZoneSpec])
        ensures
            spec_views(zones@) == self@,
    {
        self.zones.as_slice()
    }

    /// The position of the zone with identifier `zone_id`, if there is one.
    fn position_of(&self, zone_id: ZoneId) -> (pos: Option<usize>)
        requires
            self.wf(),
        ensures
            match pos {
                Some(i) => i < self@.len() && self@[i as int].id == zone_id@,
                None => !has_id(self@, zone_id@),
            },
    {
        let raw: u32 = zone_id.raw();
        if raw >= 1 && ((raw - 1) as usize) < self.zones.len() {
            let i: usize = (raw - 1) as usize;
            assert(self@[i as int].id == i + 1);
            Some(i)
        } else {
            proof {
                assert forall|i: int| 0 <= i < self@.len() implies #[trigger] self@[i].id
                    != zone_id@ by {
                    assert(self@[i].id == i + 1);
                }
            }
            None
        }
    }

    /// Returns a zone spec by identifier.
    pub fn zone(&self, zone_id: ZoneId) -> (z: Option<&ZoneSpec>)
        requires
            self.wf(),
        ensures
            match z {
                Some(z) => exists|i: int|
                    0 <= i < self@.len() && self@[i].id == zone_id@ && z@ == #[trigger] self@[i],
                None => !has_id(self@, zone_id@),
            },
    {
        match self.position_of(zone_id) {
            Some(i) => {
                let z = &self.zones[i];
                assert(z@ == self@[i as int]);
                Some(z)
            },
            None => None,
        }
    }

    /// Returns the plugin that owns a zone.
    pub fn owner(&self, zone_id: ZoneId) -> (p: Option<&P>)
        requires
            self.wf(),
        ensures
            match p {
                Some(p) => exists|i: int|
                    0 <= i < self@.len() && self@[i].id == zone_id@ && *p
                        == #[trigger] self.owners()[i],
                None => !has_id(self@, zone_id@),
            },
    {
        match self.position_of(zone_id) {
            Some(i) => {
                let p = &self.plugins[self.owner_index[i]];
                assert(*p == self.owners()[i as int]);
                Some(p)
            },
            None => None,
        }
    }

    /// Returns a zone spec by name.
    pub fn zone_by_name(&self, name: &str) -> (z: Option<&ZoneSpec>)
        requires
            self.wf(),
        ensures
            match z {
                Some(z) => exists|i: int|
                    0 <= i < self@.len() && self@[i].name == name@ && z@ == #[trigger] self@[i],
                None => !name_taken(self@, name@),
            },
    {
        let key = String::from_str(name);
        let n: usize = self.zones.len();
        for i in 0..n
            invariant
                n == self@.len(),
                key@ == name@,
                forall|j: int| 0 <= j < i ==> #[trigger] self@[j].name != name@,
        {
            if self.zones[i].name == key {
                let z = &self.zones[i];
                assert(z@ == self@[i as int]);
                return Some(z);
            }
        }
        None
    }

    /// Whether some zone is named `name`.
    fn name_in_use(&self, name: &String) -> (b: bool)
        ensures
            b == name_taken(self@, name@),
    {
        let n: usize = self.zones.len();
        for i in 0..n
            invariant
                n == self@.len(),
                forall|j: int| 0 <= j < i ==> #[trigger] self@[j].name != name@,
        {
            if self.zones[i].name == *name {
                assert(self@[i as int].name == name@);
                return true;
            }
        }
        false
    }

    /// How many zones registering `requests` would add: the number of them
    /// that would be granted.
    fn count_grants(&self, requests: &Vec<ZoneRequest>) -> (n: usize)
        requires
            self.wf(),
        ensures
            n == apply_requests(self@, request_views(requests@)).len() - self@.len(),
    {
        let ghost reqs = request_views(requests@);
        let ghost base = self@;
        let mut fresh: Vec<String> = Vec::new();
        let len: usize = requests.len();
        proof {
            assert(reqs.take(0) =~= Seq::<ZoneRequestView>::empty());
            assert(base.take(base.len() as int) =~= base);
        }
        for k in 0..len
            invariant
                len == requests@.len(),
                reqs == request_views(requests@),
                base == self@,
                self.wf(),
                fresh@.len() <= k,
                apply_requests(base, reqs.take(k as int)).len() == base.len() + fresh@.len(),
                apply_requests(base, reqs.take(k as int)).take(base.len() as int) == base,
                forall|i: int|
                    0 <= i < fresh@.len() ==> #[trigger] fresh@[i]@ == apply_requests(
                        base,
                        reqs.take(k as int),
                    )[base.len() + i].name,
        {
            let ghost cur = apply_requests(base, reqs.take(k as int));
            let request = &requests[k];
            assert(request@ == reqs[k as int]);
            assert(reqs.take(k + 1).drop_last() =~= reqs.take(k as int));
            assert(reqs.take(k + 1).last() == reqs[k as int]);
            let in_base = self.name_in_use(&request.name);
            let in_fresh = name_listed(&fresh, &request.name);
            proof {
                let name = request.name@;
                if name_taken(cur, name) {
                    let i: int = choose|i: int| 0 <= i < cur.len() && #[trigger] cur[i].name == name;
                    if i < base.len() {
                        assert(cur.take(base.len() as int)[i] == cur[i]);
                        assert(base[i].name == name);
                    } else {
                        assert(fresh@[i - base.len()]@ == name);
                    }
                }
                if in_base {
                    let i: int = choose|i: int| 0 <= i < base.len() && #[trigger] base[i].name == name;
                    assert(cur.take(base.len() as int)[i] == cur[i]);
                    assert(cur[i].name == name);
                }
                if in_fresh {
                    let i: int = choose|i: int| 0 <= i < fresh@.len() && #[trigger] fresh@[i]@ == name;
                    assert(cur[base.len() + i].name == name);
                }
                assert((in_base || in_fresh) == name_taken(cur, name));
            }
            if !(in_base || in_fresh) {
                let ghost before = fresh@;
                fresh.push(request.name.clone());
                proof {
                    let next = apply_requests(base, reqs.take(k + 1));
                    assert(next == cur.push(granted_zone(reqs[k as int], (cur.len() + 1) as u32)));
                    assert(next.take(base.len() as int) =~= cur.take(base.len() as int));
                    assert forall|i: int| 0 <= i < fresh@.len() implies #[trigger] fresh@[i]@
                        == next[base.len() + i].name by {
                        if i < before.len() {
                            assert(fresh@[i] == before[i]);
                        }
                    }
                }
            }
        }
        proof {
            assert(reqs.take(len as int) =~= reqs);
        }
        fresh.len()
    }

    /// Processes zone requests on behalf of `plugin`, in order.
    ///
    /// A request whose name is already taken (by an earlier zone, or by an
    /// earlier request of the same list) is denied; any other is granted the
    /// next identifier and owned by `plugin`. Returns one result per request.
    /// The identifiers granted must fit in a `u32`.
    pub fn register_requests(&mut self, plugin: P, requests: Vec<ZoneRequest>) -> (results: Vec<
        RegistrationResult,
    >)
        requires
            old(self).wf(),
            apply_requests(old(self)@, request_views(requests@)).len() < u32::MAX,
        ensures
            final(self).wf(),
            final(self)@ == apply_requests(old(self)@, request_views(requests@)),
            result_views(results@) == decisions(old(self)@, request_views(requests@)),
            final(self).owners().len() == final(self)@.len(),
            final(self).owners().take(old(self)@.len() as int) == old(self).owners(),
            forall|i: int|
                old(self)@.len() <= i < final(self)@.len() ==> #[trigger] final(self).owners()[i]
                    == plugin,
    {
        let ghost reqs = request_views(requests@);
        let ghost old_owners = self.owners();
        let ghost start = self@;
        let mut results: Vec<RegistrationResult> = Vec::with_capacity(requests.len());
        let plugin_index: usize = self.plugins.len();
        self.plugins.push(plugin);
        let mut granted_any = false;
        let n: usize = requests.len();
        for k in 0..n
            invariant
                n == requests@.len(),
                reqs == request_views(requests@),
                apply_requests(start, reqs).len() < u32::MAX,
                plugin_index == self.plugins@.len() - 1,
                self.plugins@[plugin_index as int] == plugin,
                self.wf(),
                self@ == apply_requests(start, reqs.take(k as int)),
                result_views(results@) == decisions(start, reqs.take(k as int)),
                start.len() <= self@.len() <= start.len() + k,
                self.owners().take(start.len() as int) == old_owners,
                forall|i: int|
                    start.len() <= i < self@.len() ==> #[trigger] self.owner_index@[i]
                        == plugin_index,
                granted_any || self@.len() == start.len(),
                forall|i: int|
                    0 <= i < start.len() ==> #[trigger] self.owner_index@[i] < plugin_index,
        {
            let ghost before = self@;
            let ghost prefix = reqs.take(k as int);
            assert(reqs.take(k + 1).drop_last() =~= prefix);
            assert(reqs.take(k + 1).last() == reqs[k as int]);
            let request = &requests[k];
            assert(request@ == reqs[k as int]);
            if self.name_in_use(&request.name) {
                results.push(RegistrationResult::Denied(denial_message(&request.name)));
                assert(result_views(results@) =~= decisions(start, reqs.take(k + 1)));
            } else {
                proof {
                    lemma_apply_prefix(start, reqs, k + 1);
                }
                let id = ZoneId::new(self.next_id);
                self.next_id = self.next_id + 1;
                let zone = ZoneSpec {
                    id,
                    name: request.name.clone(),
                    label: request.label.clone(),
                    hint: request.hint,
                    area: Rect::default(),
                    visible: true,
                    order: request.order,
                };
                self.zones.push(zone);
                self.owner_index.push(plugin_index);
                granted_any = true;
                results.push(RegistrationResult::Granted(id));
                assert(self@ =~= before.push(granted_zone(request@, (before.len() + 1) as u32)));
                assert(result_views(results@) =~= decisions(start, reqs.take(k + 1)));
                assert forall|i: int, j: int|
                    0 <= i < self@.len() && 0 <= j < self@.len() && i != j implies #[trigger] self@[i].name
                        != #[trigger] self@[j].name by {
                    if i < before.len() && j < before.len() {
                        assert(before[i].name != before[j].name);
                    } else if i < before.len() {
                        assert(before[i].name != request.name@);
                    } else {
                        assert(before[j].name != request.name@);
                    }
                }
                assert(self.owners().take(start.len() as int) =~= old_owners);
            }
        }
        proof {
            assert(reqs.take(n as int) =~= reqs);
        }
        let ghost full = self.plugins@;
        if !granted_any {
            self.plugins.pop();
            proof {
                assert forall|i: int| 0 <= i < plugin_index implies self.plugins@[i] == full[i] by {}
                assert(self.owners() =~= old_owners);
            }
        }
        proof {
            assert(self.owners().take(start.len() as int) =~= old_owners);
        }
        results
    }

    /// Returns the visible zones with the given hint, sorted by display
    /// order; zones of equal order stay in registration order.
    pub fn zones_by_hint(&self, hint: ZoneHint) -> (zones: Vec<&ZoneSpec>)
        ensures
            ref_views(zones@) == listed(self@, hint),
    {
        let mut shown: Vec<&ZoneSpec> = Vec::new();
        let n: usize = self.zones.len();
        for i in 0..n
            invariant
                n == self@.len(),
                ref_views(shown@) == self@.take(i as int).filter(shown_as(hint)),
        {
            let z = &self.zones[i];
            proof {
                lemma_filter_take_step(self@, shown_as(hint), i as int);
            }
            if z.hint == hint && z.visible {
                let ghost before = shown@;
                shown.push(z);
                assert(ref_views(shown@) =~= ref_views(before).push(z@));
            }
        }
        assert(self@.take(n as int) =~= self@);
        // Orders are bytes, so a counting sort is stable and exact: one pass
        // over the shown zones per order value, lowest first.
        let ghost v = ref_views(shown@);
        let mut sorted: Vec<&ZoneSpec> = Vec::new();
        assert(ref_views(sorted@) =~= order_buckets(v, 0));
        let mut k: u16 = 0;
        while k < 256
            invariant
                k <= 256,
                v == ref_views(shown@),
                ref_views(sorted@) == order_buckets(v, k as int),
            decreases 256 - k,
        {
            let m: usize = shown.len();
            assert(v.take(0).filter(has_order(k as int)) =~= Seq::<ZoneSpecView>::empty()) by {
                reveal(Seq::filter);
            }
            assert(ref_views(sorted@) =~= order_buckets(v, k as int) + v.take(0).filter(
                has_order(k as int),
            ));
            for j in 0..m
                invariant
                    m == shown@.len(),
                    k < 256,
                    v == ref_views(shown@),
                    ref_views(sorted@) == order_buckets(v, k as int) + v.take(j as int).filter(
                        has_order(k as int),
                    ),
            {
                proof {
                    lemma_filter_take_step(v, has_order(k as int), j as int);
                }
                let z = shown[j];
                assert(z@ == v[j as int]);
                if z.order as u16 == k {
                    let ghost before = sorted@;
                    sorted.push(z);
                    assert(ref_views(sorted@) =~= ref_views(before).push(z@));
                }
                assert(ref_views(sorted@) =~= order_buckets(v, k as int) + v.take(j + 1).filter(
                    has_order(k as int),
                ));
            }
            assert(v.take(m as int) =~= v);
            k = k + 1;
        }
        sorted
    }

    /// Returns the visible tab zones, sorted by display order.
    pub fn tabs(&self) -> (zones: Vec<&ZoneSpec>)
        ensures
            ref_views(zones@) == listed(self@, ZoneHint::Tab),
    {
        self.zones_by_hint(ZoneHint::Tab)
    }

    /// Updates the area of a zone (called by the host each frame). Does
    /// nothing if no zone has that identifier.
    pub fn update_area(&mut self, zone_id: ZoneId, area: Rect)
        requires
            old(self).wf(),
        ensures
            final(self).wf(),
            final(self)@ == with_area(old(self)@, zone_id@, area),
            final(self).owners() == old(self).owners(),
    {
        if let Some(i) = self.position_of(zone_id) {
            self.zones[i].area = area;
        }
        proof {
            assert(self@ =~= with_area(old(self)@, zone_id@, area));
            assert(self.owners() =~= old(self).owners());
        }
    }

    /// Sets the visibility of a zone. Does nothing if no zone has that
    /// identifier.
    pub fn set_visible(&mut self, zone_id: ZoneId, visible: bool)
        requires
            old(self).wf(),
        ensures
            final(self).wf(),
            final(self)@ == with_visibility(old(self)@, zone_id@, visible),
            final(self).owners() == old(self).owners(),
    {
        if let Some(i) = self.position_of(zone_id) {
            self.zones[i].visible = visible;
        }
        proof {
            assert(self@ =~= with_visibility(old(self)@, zone_id@, visible));
            assert(self.owners() =~= old(self).owners());
        }
    }
}

impl<P> Default for ZoneRegistry<P> {
    /// An empty registry.
    fn default() -> (r: Self)
        ensures
            r.wf(),
            r@ == Seq::<ZoneSpecView>::empty(),
            r.owners() == Seq::<P>::empty(),
    {
        Self::new()
    }
}

impl<P: ZonePlugin> ZoneRegistry<P> {
    /// Registers a plugin: asks it for its zone requests (one call of its
    /// `zones()`) and processes the list it returned in order, as
    /// [`ZoneRegistry::register_requests`] does. Returns one result per
    /// request.
    ///
    /// If the zones it would grant need more identifiers than remain, the
    /// registry is left unchanged and the result is empty.
    pub fn register(&mut self, plugin: P) -> (results: Vec<RegistrationResult>)
        requires
            old(self).wf(),
        ensures
            final(self).wf(),
            exists|requests: Vec<ZoneRequest>|
                #[trigger] P::zones.ensures((&plugin,), requests) && registration_outcome(
                    old(self)@,
                    request_views(requests@),
                    final(self)@,
                    result_views(results@),
                ),
            final(self).owners().len() == final(self)@.len(),
            final(self).owners().take(old(self)@.len() as int) == old(self).owners(),
            forall|i: int|
                old(self)@.len() <= i < final(self)@.len() ==> #[trigger] final(self).owners()[i]
                    == plugin,
    {
        let requests = plugin.zones();
        let ghost returned = requests;
        let ghost reqs = request_views(requests@);
        assert(P::zones.ensures((&plugin,), returned));
        let room: usize = (u32::MAX as usize) - self.zones.len();
        let fits: bool = if requests.len() < room {
            proof {
                lemma_apply_len(self@, reqs);
            }
            true
        } else {
            self.count_grants(&requests) < room
        };
        if fits {
            let results = self.register_requests(plugin, requests);
            assert(registration_outcome(old(self)@, reqs, self@, result_views(results@)));
            results
        } else {
            let results: Vec<RegistrationResult> = Vec::new();
            assert(result_views(results@) =~= Seq::<RegistrationView>::empty());
            assert(self.owners().take(old(self)@.len() as int) =~= old(self).owners());
            assert(registration_outcome(old(self)@, reqs, self@, result_views(results@)));
            results
        }
    }
}

} // verus!
