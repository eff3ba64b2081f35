//! What holds of the registry across calls: registration only ever adds
//! zones, never reuses an identifier or a name, answers every request, and
//! the per-hint listing is a stable sort of the visible zones by order.

use ratatui::layout::Rect;
use vstd::prelude::*;

use crate::registry::{
    apply_request, apply_requests, decision, decisions, denial_reason, granted_zone, has_order,
    ids_sequential, listed, name_taken, names_distinct, order_buckets, shown_as,
    sorted_by_order, with_area, with_visibility, RegistrationView,
};
use crate::terminal::rect_new;
use crate::zone::{decimal, digit_char, ZoneHint, ZoneRequestView, ZoneSpecView};

verus! {

// ---------------------------------------------------------------------------
// Filtering
// ---------------------------------------------------------------------------

proof fn lemma_filter_empty<A>(p: spec_fn(A) -> bool)
    ensures
        Seq::<A>::empty().filter(p) == Seq::<A>::empty(),
{
    reveal(Seq::filter);
}

/// Keeping order `j`, then order `k`, keeps order `k` if the two agree and
/// nothing otherwise.
proof fn lemma_filter_orders(s: Seq<ZoneSpecView>, j: int, k: int)
    ensures
        s.filter(has_order(j)).filter(has_order(k)) == (if j == k {
            s.filter(has_order(k))
        } else {
            Seq::<ZoneSpecView>::empty()
        }),
    decreases s.len(),
{
    if s.len() == 0 {
        lemma_filter_empty(has_order(j));
        lemma_filter_empty(has_order(k));
    } else {
        let t = s.drop_last();
        let x = s.last();
        lemma_filter_orders(t, j, k);
        assert(s =~= t.push(x));
        t.lemma_filter_push(x, has_order(j));
        t.lemma_filter_push(x, has_order(k));
        if x.order == j {
            t.filter(has_order(j)).lemma_filter_push(x, has_order(k));
        }
    }
}

// ---------------------------------------------------------------------------
// Buckets by order
// ---------------------------------------------------------------------------

proof fn lemma_buckets_bounded(s: Seq<ZoneSpecView>, k: int)
    requires
        0 <= k,
    ensures
        forall|i: int|
            0 <= i < order_buckets(s, k).len() ==> #[trigger] order_buckets(s, k)[i].order < k
                && s.contains(order_buckets(s, k)[i]),
    decreases k,
{
    if k > 0 {
        lemma_buckets_bounded(s, k - 1);
        let a = order_buckets(s, k - 1);
        let f = s.filter(has_order(k - 1));
        assert(order_buckets(s, k) == a + f);
        assert forall|i: int| 0 <= i < order_buckets(s, k).len() implies #[trigger] order_buckets(
            s,
            k,
        )[i].order < k && s.contains(order_buckets(s, k)[i]) by {
            if i >= a.len() {
                let m: int = i - a.len();
                s.lemma_filter_pred(has_order(k - 1), m);
                assert(f.contains(f[m]));
                s.lemma_filter_contains_rev(has_order(k - 1), f[m]);
            }
        }
    }
}

proof fn lemma_buckets_sorted(s: Seq<ZoneSpecView>, k: int)
    requires
        0 <= k,
    ensures
        forall|i: int, j: int|
            0 <= i <= j < order_buckets(s, k).len() ==> #[trigger] order_buckets(s, k)[i].order
                <= #[trigger] order_buckets(s, k)[j].order,
    decreases k,
{
    if k > 0 {
        lemma_buckets_sorted(s, k - 1);
        lemma_buckets_bounded(s, k - 1);
        let a = order_buckets(s, k - 1);
        let f = s.filter(has_order(k - 1));
        let b = order_buckets(s, k);
        assert(b == a + f);
        assert forall|i: int, j: int| 0 <= i <= j < b.len() implies #[trigger] b[i].order
            <= #[trigger] b[j].order by {
            if j < a.len() {
                assert(a[i].order <= a[j].order);
            } else if i < a.len() {
                assert(a[i].order < k - 1);
                s.lemma_filter_pred(has_order(k - 1), j - a.len());
            } else {
                s.lemma_filter_pred(has_order(k - 1), i - a.len());
                s.lemma_filter_pred(has_order(k - 1), j - a.len());
            }
        }
    }
}

proof fn lemma_buckets_of_empty(k: int)
    requires
        0 <= k,
    ensures
        order_buckets(Seq::<ZoneSpecView>::empty(), k) == Seq::<ZoneSpecView>::empty(),
    decreases k,
{
    if k > 0 {
        lemma_buckets_of_empty(k - 1);
        lemma_filter_empty(has_order(k - 1));
        assert(order_buckets(Seq::<ZoneSpecView>::empty(), k) =~= Seq::<ZoneSpecView>::empty());
    }
}

proof fn lemma_buckets_push_len(t: Seq<ZoneSpecView>, x: ZoneSpecView, k: int)
    requires
        0 <= k,
    ensures
        order_buckets(t.push(x), k).len() == order_buckets(t, k).len() + (if x.order < k {
            1int
        } else {
            0int
        }),
    decreases k,
{
    if k > 0 {
        lemma_buckets_push_len(t, x, k - 1);
        t.lemma_filter_push(x, has_order(k - 1));
    }
}

proof fn lemma_sorted_len(s: Seq<ZoneSpecView>)
    ensures
        sorted_by_order(s).len() == s.len(),
    decreases s.len(),
{
    if s.len() == 0 {
        assert(s =~= Seq::<ZoneSpecView>::empty());
        lemma_buckets_of_empty(256);
    } else {
        let t = s.drop_last();
        lemma_sorted_len(t);
        assert(s =~= t.push(s.last()));
        lemma_buckets_push_len(t, s.last(), 256);
    }
}

proof fn lemma_buckets_contain(s: Seq<ZoneSpecView>, k: int, z: ZoneSpecView)
    requires
        0 <= z.order < k,
        s.contains(z),
    ensures
        order_buckets(s, k).contains(z),
    decreases k,
{
    let a = order_buckets(s, k - 1);
    let f = s.filter(has_order(k - 1));
    assert(order_buckets(s, k) == a + f);
    if z.order == k - 1 {
        let i: int = choose|i: int| 0 <= i < s.len() && s[i] == z;
        s.lemma_filter_contains(has_order(k - 1), i);
        let m: int = choose|m: int| 0 <= m < f.len() && f[m] == z;
        assert((a + f)[a.len() + m] == z);
    } else {
        lemma_buckets_contain(s, k - 1, z);
        let m: int = choose|m: int| 0 <= m < a.len() && a[m] == z;
        assert((a + f)[m] == z);
    }
}

proof fn lemma_buckets_filter(s: Seq<ZoneSpecView>, big: int, k: int)
    requires
        0 <= big,
        0 <= k,
    ensures
        order_buckets(s, big).filter(has_order(k)) == (if k < big {
            s.filter(has_order(k))
        } else {
            Seq::<ZoneSpecView>::empty()
        }),
    decreases big,
{
    if big == 0 {
        assert(order_buckets(s, big) == Seq::<ZoneSpecView>::empty());
        lemma_filter_empty(has_order(k));
    } else {
        lemma_buckets_filter(s, big - 1, k);
        let a = order_buckets(s, big - 1);
        let f = s.filter(has_order(big - 1));
        assert(order_buckets(s, big) == a + f);
        Seq::filter_distributes_over_add(a, f, has_order(k));
        lemma_filter_orders(s, big - 1, k);
        assert(order_buckets(s, big).filter(has_order(k)) == a.filter(has_order(k)) + f.filter(
            has_order(k),
        ));
        if k < big - 1 {
            assert(s.filter(has_order(k)) + Seq::<ZoneSpecView>::empty() =~= s.filter(
                has_order(k),
            ));
        } else if k == big - 1 {
            assert(Seq::<ZoneSpecView>::empty() + s.filter(has_order(k)) =~= s.filter(
                has_order(k),
            ));
        } else {
            assert(Seq::<ZoneSpecView>::empty() + Seq::<ZoneSpecView>::empty()
                =~= Seq::<ZoneSpecView>::empty());
        }
    }
}

// ---------------------------------------------------------------------------
// The listing for a hint
// ---------------------------------------------------------------------------

/// The listing for a hint is sorted by display order, lowest first.
pub proof fn law_listed_sorted(zones: Seq<ZoneSpecView>, hint: ZoneHint)
    ensures
        forall|i: int, j: int|
            0 <= i <= j < listed(zones, hint).len() ==> #[trigger] listed(zones, hint)[i].order
                <= #[trigger] listed(zones, hint)[j].order,
{
    lemma_buckets_sorted(zones.filter(shown_as(hint)), 256);
}

/// Everything listed for a hint is a registered zone that is visible and
/// has that hint.
pub proof fn law_listed_only_shown(zones: Seq<ZoneSpecView>, hint: ZoneHint)
    ensures
        forall|i: int|
            0 <= i < listed(zones, hint).len() ==> zones.contains(#[trigger] listed(zones, hint)[i])
                && listed(zones, hint)[i].visible && listed(zones, hint)[i].hint == hint,
{
    let f = zones.filter(shown_as(hint));
    lemma_buckets_bounded(f, 256);
    assert forall|i: int| 0 <= i < listed(zones, hint).len() implies zones.contains(
        #[trigger] listed(zones, hint)[i],
    ) && listed(zones, hint)[i].visible && listed(zones, hint)[i].hint == hint by {
        let z = listed(zones, hint)[i];
        assert(f.contains(z));
        let m: int = choose|m: int| 0 <= m < f.len() && f[m] == z;
        zones.lemma_filter_pred(shown_as(hint), m);
        zones.lemma_filter_contains_rev(shown_as(hint), z);
    }
}

/// Every visible zone with the hint is listed, and nothing is listed twice
/// over: the listing is exactly as long as the set of such zones.
pub proof fn law_listed_complete(zones: Seq<ZoneSpecView>, hint: ZoneHint)
    ensures
        listed(zones, hint).len() == zones.filter(shown_as(hint)).len(),
        forall|i: int|
            0 <= i < zones.len() && #[trigger] zones[i].visible && zones[i].hint == hint
                ==> listed(zones, hint).contains(zones[i]),
{
    let f = zones.filter(shown_as(hint));
    lemma_sorted_len(f);
    assert forall|i: int|
        0 <= i < zones.len() && #[trigger] zones[i].visible && zones[i].hint == hint implies listed(
        zones,
        hint,
    ).contains(zones[i]) by {
        zones.lemma_filter_contains(shown_as(hint), i);
        lemma_buckets_contain(f, 256, zones[i]);
    }
}

/// Listing is stable: the listed zones of any one order are exactly the
/// visible zones of that order and hint, in registration order.
pub proof fn law_listed_stable(zones: Seq<ZoneSpecView>, hint: ZoneHint, order: u8)
    ensures
        listed(zones, hint).filter(has_order(order as int)) == zones.filter(shown_as(hint)).filter(
            has_order(order as int),
        ),
{
    lemma_buckets_filter(zones.filter(shown_as(hint)), 256, order as int);
}

/// A zone that has been hidden is not listed under any hint.
pub proof fn law_hidden_zone_not_listed(zones: Seq<ZoneSpecView>, id: u32, hint: ZoneHint)
    ensures
        forall|i: int|
            0 <= i < listed(with_visibility(zones, id, false), hint).len() ==> (#[trigger] listed(
                with_visibility(zones, id, false),
                hint,
            )[i]).id != id,
{
    let hidden = with_visibility(zones, id, false);
    law_listed_only_shown(hidden, hint);
    assert forall|i: int| 0 <= i < listed(hidden, hint).len() implies (#[trigger] listed(
        hidden,
        hint,
    )[i]).id != id by {
        let z = listed(hidden, hint)[i];
        let m: int = choose|m: int| 0 <= m < hidden.len() && hidden[m] == z;
        assert(hidden[m].visible);
    }
}

/// Setting a zone's area changes that zone's area and nothing else: what
/// the host reads back is what it wrote.
pub proof fn law_area_read_back(zones: Seq<ZoneSpecView>, id: u32, area: Rect)
    ensures
        with_area(zones, id, area).len() == zones.len(),
        forall|i: int|
            0 <= i < zones.len() ==> (#[trigger] with_area(zones, id, area)[i] == if zones[i].id
                == id {
                ZoneSpecView { area, ..zones[i] }
            } else {
                zones[i]
            }),
        ids_sequential(zones) ==> ids_sequential(with_area(zones, id, area)),
        names_distinct(zones) ==> names_distinct(with_area(zones, id, area)),
{
}

// ---------------------------------------------------------------------------
// Registration
// ---------------------------------------------------------------------------

/// Identifiers numbered from one are unique.
pub proof fn law_ids_unique(zones: Seq<ZoneSpecView>)
    requires
        ids_sequential(zones),
    ensures
        forall|i: int, j: int|
            0 <= i < zones.len() && 0 <= j < zones.len() && i != j ==> #[trigger] zones[i].id
                != #[trigger] zones[j].id,
{
}

pub(crate) proof fn lemma_apply_len(zones: Seq<ZoneSpecView>, requests: Seq<ZoneRequestView>)
    ensures
        zones.len() <= apply_requests(zones, requests).len() <= zones.len() + requests.len(),
    decreases requests.len(),
{
    if requests.len() > 0 {
        lemma_apply_len(zones, requests.drop_last());
    }
}

/// Applying the first `j` requests gives a prefix of applying them all.
pub(crate) proof fn lemma_apply_prefix(zones: Seq<ZoneSpecView>, requests: Seq<ZoneRequestView>, j: int)
    requires
        0 <= j <= requests.len(),
    ensures
        apply_requests(zones, requests.take(j)).len() <= apply_requests(zones, requests).len(),
        apply_requests(zones, requests).take(apply_requests(zones, requests.take(j)).len() as int)
            == apply_requests(zones, requests.take(j)),
    decreases requests.len(),
{
    if j == requests.len() {
        assert(requests.take(j) =~= requests);
        assert(apply_requests(zones, requests).take(apply_requests(zones, requests).len() as int)
            =~= apply_requests(zones, requests));
    } else {
        let rest = requests.drop_last();
        lemma_apply_prefix(zones, rest, j);
        assert(rest.take(j) =~= requests.take(j));
        let prev = apply_requests(zones, rest);
        let short = apply_requests(zones, requests.take(j));
        assert(apply_requests(zones, requests) == apply_request(prev, requests.last()));
        if !name_taken(prev, requests.last().name) {
            let next = prev.push(granted_zone(requests.last(), (prev.len() + 1) as u32));
            assert(next.take(short.len() as int) =~= prev.take(short.len() as int));
        }
    }
}

/// The answers line up with the requests: answer `k` is the decision on
/// request `k` given the zones registered before it.
proof fn lemma_decision_at(zones: Seq<ZoneSpecView>, requests: Seq<ZoneRequestView>, k: int)
    requires
        0 <= k < requests.len(),
    ensures
        decisions(zones, requests).len() == requests.len(),
        decisions(zones, requests)[k] == decision(
            apply_requests(zones, requests.take(k)),
            requests[k],
        ),
    decreases requests.len(),
{
    let rest = requests.drop_last();
    law_one_answer_per_request(zones, rest);
    if k == requests.len() - 1 {
        assert(requests.take(k) =~= rest);
    } else {
        lemma_decision_at(zones, rest, k);
        assert(rest.take(k) =~= requests.take(k));
    }
}

/// Registration answers every request, one answer each.
pub proof fn law_one_answer_per_request(zones: Seq<ZoneSpecView>, requests: Seq<ZoneRequestView>)
    ensures
        decisions(zones, requests).len() == requests.len(),
    decreases requests.len(),
{
    if requests.len() > 0 {
        law_one_answer_per_request(zones, requests.drop_last());
    }
}

/// Registration only adds zones: the zones registered before are kept,
/// unchanged and in place, and at most one zone is added per request.
pub proof fn law_registration_extends(zones: Seq<ZoneSpecView>, requests: Seq<ZoneRequestView>)
    ensures
        zones.len() <= apply_requests(zones, requests).len() <= zones.len() + requests.len(),
        apply_requests(zones, requests).take(zones.len() as int) == zones,
{
    lemma_apply_len(zones, requests);
    lemma_apply_prefix(zones, requests, 0);
    assert(requests.take(0) =~= Seq::<ZoneRequestView>::empty());
}

/// Registration keeps identifiers numbered from one and names distinct, as
/// long as the identifiers it grants fit in a `u32`.
pub proof fn law_registration_keeps_ids_and_names(
    zones: Seq<ZoneSpecView>,
    requests: Seq<ZoneRequestView>,
)
    requires
        ids_sequential(zones),
        names_distinct(zones),
        apply_requests(zones, requests).len() < u32::MAX,
    ensures
        ids_sequential(apply_requests(zones, requests)),
        names_distinct(apply_requests(zones, requests)),
    decreases requests.len(),
{
    if requests.len() > 0 {
        let rest = requests.drop_last();
        lemma_apply_prefix(zones, requests, requests.len() - 1);
        assert(requests.take(requests.len() - 1) =~= rest);
        law_registration_keeps_ids_and_names(zones, rest);
        let prev = apply_requests(zones, rest);
        let r = requests.last();
        if !name_taken(prev, r.name) {
            let next = prev.push(granted_zone(r, (prev.len() + 1) as u32));
            assert(next == apply_requests(zones, requests));
            assert forall|i: int, j: int|
                0 <= i < next.len() && 0 <= j < next.len() && i != j implies #[trigger] next[i].name
                    != #[trigger] next[j].name by {
                if i < prev.len() && j < prev.len() {
                    assert(prev[i].name != prev[j].name);
                } else if i < prev.len() {
                    assert(prev[i].name != r.name);
                } else {
                    assert(prev[j].name != r.name);
                }
            }
        }
    }
}

/// A granted request is registered: the zone with the granted identifier
/// has that identifier, carries the request's own name, label, hint and
/// display order, is visible, and has the default (empty) area.
pub proof fn law_granted_zone_is_registered(
    zones: Seq<ZoneSpecView>,
    requests: Seq<ZoneRequestView>,
    k: int,
    id: u32,
)
    requires
        ids_sequential(zones),
        apply_requests(zones, requests).len() < u32::MAX,
        0 <= k < requests.len(),
        decisions(zones, requests)[k] == RegistrationView::Granted(id),
    ensures
        1 <= id <= apply_requests(zones, requests).len(),
        apply_requests(zones, requests)[id - 1] == granted_zone(requests[k], id),
        apply_requests(zones, requests)[id - 1].id == id,
        apply_requests(zones, requests)[id - 1].name == requests[k].name,
        apply_requests(zones, requests)[id - 1].label == requests[k].label,
        apply_requests(zones, requests)[id - 1].hint == requests[k].hint,
        apply_requests(zones, requests)[id - 1].order == requests[k].order,
        apply_requests(zones, requests)[id - 1].visible,
        apply_requests(zones, requests)[id - 1].area == rect_new(0, 0, 0, 0),
{
    lemma_decision_at(zones, requests, k);
    let before = apply_requests(zones, requests.take(k));
    lemma_apply_len(zones, requests.take(k));
    assert(!name_taken(before, requests[k].name));
    let after = apply_requests(zones, requests.take(k + 1));
    assert(requests.take(k + 1).drop_last() =~= requests.take(k));
    assert(after == before.push(granted_zone(requests[k], id)));
    lemma_apply_prefix(zones, requests, k + 1);
    let all = apply_requests(zones, requests);
    assert(all.take(after.len() as int)[before.len() as int] == all[before.len() as int]);
}

/// Name-taken is kept by extending the zones.
proof fn lemma_name_taken_prefix(short: Seq<ZoneSpecView>, long: Seq<ZoneSpecView>, name: Seq<char>)
    requires
        short.len() <= long.len(),
        long.take(short.len() as int) == short,
        name_taken(short, name),
    ensures
        name_taken(long, name),
{
    let i: int = choose|i: int| 0 <= i < short.len() && #[trigger] short[i].name == name;
    assert(long.take(short.len() as int)[i] == long[i]);
    assert(long[i].name == name);
}

/// A request is denied, with the reason that names it, when its name is
/// already registered or was asked for by an earlier request of the same
/// registration.
pub proof fn law_taken_name_is_denied(
    zones: Seq<ZoneSpecView>,
    requests: Seq<ZoneRequestView>,
    k: int,
)
    requires
        0 <= k < requests.len(),
        name_taken(zones, requests[k].name) || exists|j: int|
            0 <= j < k && #[trigger] requests[j].name == requests[k].name,
    ensures
        decisions(zones, requests)[k] == RegistrationView::Denied(denial_reason(requests[k].name)),
{
    lemma_decision_at(zones, requests, k);
    let name = requests[k].name;
    let before = apply_requests(zones, requests.take(k));
    if name_taken(zones, name) {
        law_registration_extends(zones, requests.take(k));
        lemma_name_taken_prefix(zones, before, name);
    } else {
        let j: int = choose|j: int| 0 <= j < k && #[trigger] requests[j].name == requests[k].name;
        let at_j = apply_requests(zones, requests.take(j));
        let after_j = apply_requests(zones, requests.take(j + 1));
        assert(requests.take(j + 1).drop_last() =~= requests.take(j));
        assert(requests.take(j + 1).last() == requests[j]);
        assert(name_taken(after_j, name)) by {
            if !name_taken(at_j, name) {
                let z = granted_zone(requests[j], (at_j.len() + 1) as u32);
                assert(after_j == at_j.push(z));
                assert(after_j[at_j.len() as int].name == name);
            }
        }
        let front = requests.take(k);
        lemma_apply_prefix(zones, front, j + 1);
        assert(front.take(j + 1) =~= requests.take(j + 1));
        lemma_name_taken_prefix(after_j, before, name);
    }
}

// ---------------------------------------------------------------------------
// The five listings together
// ---------------------------------------------------------------------------

/// The predicate "visible".
pub open spec fn is_visible() -> spec_fn(ZoneSpecView) -> bool {
    |z: ZoneSpecView| z.visible
}

proof fn lemma_hint_counts(zones: Seq<ZoneSpecView>)
    ensures
        zones.filter(shown_as(ZoneHint::Tab)).len() + zones.filter(shown_as(ZoneHint::Sidebar)).len()
            + zones.filter(shown_as(ZoneHint::Control)).len() + zones.filter(
            shown_as(ZoneHint::Overlay),
        ).len() + zones.filter(shown_as(ZoneHint::StatusBar)).len() == zones.filter(
            is_visible(),
        ).len(),
    decreases zones.len(),
{
    if zones.len() == 0 {
        lemma_filter_empty(shown_as(ZoneHint::Tab));
        lemma_filter_empty(shown_as(ZoneHint::Sidebar));
        lemma_filter_empty(shown_as(ZoneHint::Control));
        lemma_filter_empty(shown_as(ZoneHint::Overlay));
        lemma_filter_empty(shown_as(ZoneHint::StatusBar));
        lemma_filter_empty(is_visible());
        assert(zones =~= Seq::<ZoneSpecView>::empty());
    } else {
        let t = zones.drop_last();
        let x = zones.last();
        lemma_hint_counts(t);
        assert(zones =~= t.push(x));
        t.lemma_filter_push(x, shown_as(ZoneHint::Tab));
        t.lemma_filter_push(x, shown_as(ZoneHint::Sidebar));
        t.lemma_filter_push(x, shown_as(ZoneHint::Control));
        t.lemma_filter_push(x, shown_as(ZoneHint::Overlay));
        t.lemma_filter_push(x, shown_as(ZoneHint::StatusBar));
        t.lemma_filter_push(x, is_visible());
    }
}

/// The listings of the five hints split the visible zones among them: no
/// zone is listed under two hints, and together they list as many zones as
/// are visible.
pub proof fn law_listings_partition_visible(zones: Seq<ZoneSpecView>)
    ensures
        forall|h1: ZoneHint, h2: ZoneHint, i: int, j: int|
            h1 != h2 && 0 <= i < listed(zones, h1).len() && 0 <= j < listed(zones, h2).len()
                ==> #[trigger] listed(zones, h1)[i] != #[trigger] listed(zones, h2)[j],
        listed(zones, ZoneHint::Tab).len() + listed(zones, ZoneHint::Sidebar).len() + listed(
            zones,
            ZoneHint::Control,
        ).len() + listed(zones, ZoneHint::Overlay).len() + listed(zones, ZoneHint::StatusBar).len()
            == zones.filter(is_visible()).len(),
{
    assert forall|h1: ZoneHint, h2: ZoneHint, i: int, j: int|
        h1 != h2 && 0 <= i < listed(zones, h1).len() && 0 <= j < listed(
            zones,
            h2,
        ).len() implies #[trigger] listed(zones, h1)[i] != #[trigger] listed(zones, h2)[j] by {
        law_listed_only_shown(zones, h1);
        law_listed_only_shown(zones, h2);
    }
    law_listed_complete(zones, ZoneHint::Tab);
    law_listed_complete(zones, ZoneHint::Sidebar);
    law_listed_complete(zones, ZoneHint::Control);
    law_listed_complete(zones, ZoneHint::Overlay);
    law_listed_complete(zones, ZoneHint::StatusBar);
    lemma_hint_counts(zones);
}

/// Hiding or showing a zone keeps every zone registered: the zones, their
/// identifiers and names are unchanged, and only that zone's visibility
/// changes.
pub proof fn law_visibility_keeps_zones(zones: Seq<ZoneSpecView>, id: u32, visible: bool)
    ensures
        with_visibility(zones, id, visible).len() == zones.len(),
        forall|i: int|
            0 <= i < zones.len() ==> (#[trigger] with_visibility(zones, id, visible)[i] == if zones[i].id
                == id {
                ZoneSpecView { visible, ..zones[i] }
            } else {
                zones[i]
            }),
        ids_sequential(zones) ==> ids_sequential(with_visibility(zones, id, visible)),
        names_distinct(zones) ==> names_distinct(with_visibility(zones, id, visible)),
{
}

// ---------------------------------------------------------------------------
// Grants, one registration and a history of them
// ---------------------------------------------------------------------------

/// How many of the answers are grants.
pub open spec fn granted_count(answers: Seq<RegistrationView>) -> nat
    decreases answers.len(),
{
    if answers.len() == 0 {
        0
    } else {
        granted_count(answers.drop_last()) + if answers.last() is Granted {
            1nat
        } else {
            0nat
        }
    }
}

/// The zones that the granted requests become, in request order.
pub open spec fn granted_zones(
    requests: Seq<ZoneRequestView>,
    answers: Seq<RegistrationView>,
) -> Seq<ZoneSpecView>
    decreases requests.len(),
{
    if requests.len() == 0 || answers.len() == 0 {
        Seq::empty()
    } else {
        granted_zones(requests.drop_last(), answers.drop_last()) + match answers.last() {
            RegistrationView::Granted(id) => seq![granted_zone(requests.last(), id)],
            RegistrationView::Denied(_) => Seq::<ZoneSpecView>::empty(),
        }
    }
}

/// A registration appends exactly the zones it grants, in request order:
/// one zone per grant, none per denial.
pub proof fn law_registration_appends_grants(
    zones: Seq<ZoneSpecView>,
    requests: Seq<ZoneRequestView>,
)
    ensures
        apply_requests(zones, requests) == zones + granted_zones(
            requests,
            decisions(zones, requests),
        ),
        granted_zones(requests, decisions(zones, requests)).len() == granted_count(
            decisions(zones, requests),
        ),
    decreases requests.len(),
{
    if requests.len() == 0 {
        assert(zones + Seq::<ZoneSpecView>::empty() =~= zones);
    } else {
        let rest = requests.drop_last();
        law_registration_appends_grants(zones, rest);
        let answers = decisions(zones, requests);
        assert(answers.drop_last() =~= decisions(zones, rest));
        let prev = apply_requests(zones, rest);
        let d = decision(prev, requests.last());
        assert(answers.last() == d);
        let g = granted_zones(rest, decisions(zones, rest));
        if name_taken(prev, requests.last().name) {
            assert(granted_zones(requests, answers) =~= g);
        } else {
            let z = granted_zone(requests.last(), (prev.len() + 1) as u32);
            assert(granted_zones(requests, answers) =~= g + seq![z]);
            assert(prev.push(z) =~= zones + (g + seq![z]));
        }
    }
}

/// The zones after registering each batch of requests in turn, starting
/// from an empty registry.
pub open spec fn after_batches(batches: Seq<Seq<ZoneRequestView>>) -> Seq<ZoneSpecView>
    decreases batches.len(),
{
    if batches.len() == 0 {
        Seq::empty()
    } else {
        apply_requests(after_batches(batches.drop_last()), batches.last())
    }
}

/// The answers to the last batch of a history.
pub open spec fn last_answers(batches: Seq<Seq<ZoneRequestView>>) -> Seq<RegistrationView> {
    decisions(after_batches(batches.drop_last()), batches.last())
}

/// The zones granted over a history of registrations, in grant order.
pub open spec fn grants_in_batches(batches: Seq<Seq<ZoneRequestView>>) -> Seq<ZoneSpecView>
    decreases batches.len(),
{
    if batches.len() == 0 {
        Seq::empty()
    } else {
        grants_in_batches(batches.drop_last()) + granted_zones(
            batches.last(),
            last_answers(batches),
        )
    }
}

/// The number of grants over a history of registrations.
pub open spec fn grant_total(batches: Seq<Seq<ZoneRequestView>>) -> nat
    decreases batches.len(),
{
    if batches.len() == 0 {
        0
    } else {
        grant_total(batches.drop_last()) + granted_count(last_answers(batches))
    }
}

/// Over any history of registrations from an empty registry, the registry
/// holds every granted zone exactly once, in grant order (registration by
/// registration, request by request), and nothing else: its length is the
/// number of grants, and it is empty exactly when nothing was granted.
pub proof fn law_registry_is_its_grants(batches: Seq<Seq<ZoneRequestView>>)
    ensures
        after_batches(batches) == grants_in_batches(batches),
        after_batches(batches).len() == grant_total(batches),
        after_batches(batches).len() == 0 <==> grant_total(batches) == 0,
    decreases batches.len(),
{
    if batches.len() > 0 {
        let rest = batches.drop_last();
        law_registry_is_its_grants(rest);
        law_registration_appends_grants(after_batches(rest), batches.last());
    }
}

/// Every zone after a registration is either one of the zones before it,
/// in its place, or bears the name of one of the requests.
proof fn lemma_apply_names(zones: Seq<ZoneSpecView>, requests: Seq<ZoneRequestView>, i: int)
    requires
        0 <= i < apply_requests(zones, requests).len(),
    ensures
        (i < zones.len() && apply_requests(zones, requests)[i] == zones[i]) || exists|j: int|
            0 <= j < requests.len() && #[trigger] requests[j].name == apply_requests(
                zones,
                requests,
            )[i].name,
    decreases requests.len(),
{
    lemma_apply_len(zones, requests);
    if requests.len() > 0 {
        let rest = requests.drop_last();
        let prev = apply_requests(zones, rest);
        lemma_apply_len(zones, rest);
        if i < prev.len() {
            lemma_apply_names(zones, rest, i);
            if !(i < zones.len() && prev[i] == zones[i]) {
                let j: int = choose|j: int| 0 <= j < rest.len() && #[trigger] rest[j].name == prev[i].name;
                assert(requests[j] == rest[j]);
            }
        } else {
            assert(requests[requests.len() - 1].name == apply_requests(zones, requests)[i].name);
        }
    } else {
        assert(requests.len() == 0);
    }
}

/// A request is granted whenever its name is free: if no registered zone
/// and no earlier request of the same registration has its name, its answer
/// is a grant of the next identifier (one more than the number of zones
/// registered before it), and a zone with that name is added there.
pub proof fn law_fresh_name_is_granted(
    zones: Seq<ZoneSpecView>,
    requests: Seq<ZoneRequestView>,
    k: int,
)
    requires
        0 <= k < requests.len(),
        forall|i: int| 0 <= i < zones.len() ==> #[trigger] zones[i].name != requests[k].name,
        forall|j: int| 0 <= j < k ==> #[trigger] requests[j].name != requests[k].name,
    ensures
        decisions(zones, requests)[k] == RegistrationView::Granted(
            (apply_requests(zones, requests.take(k)).len() + 1) as u32,
        ),
        apply_requests(zones, requests.take(k)).len() < apply_requests(zones, requests).len(),
        apply_requests(zones, requests)[apply_requests(zones, requests.take(k)).len() as int].name
            == requests[k].name,
{
    lemma_decision_at(zones, requests, k);
    let front = requests.take(k);
    let before = apply_requests(zones, front);
    let name = requests[k].name;
    assert(!name_taken(before, name)) by {
        if name_taken(before, name) {
            let i: int = choose|i: int| 0 <= i < before.len() && #[trigger] before[i].name == name;
            lemma_apply_names(zones, front, i);
            if i < zones.len() && before[i] == zones[i] {
                assert(zones[i].name == name);
            } else {
                let j: int = choose|j: int| 0 <= j < front.len() && #[trigger] front[j].name
                    == before[i].name;
                assert(requests[j].name == name);
            }
        }
    }
    let after = apply_requests(zones, requests.take(k + 1));
    assert(requests.take(k + 1).drop_last() =~= front);
    assert(requests.take(k + 1).last() == requests[k]);
    assert(after == before.push(granted_zone(requests[k], (before.len() + 1) as u32)));
    lemma_apply_prefix(zones, requests, k + 1);
    let all = apply_requests(zones, requests);
    assert(all.take(after.len() as int)[before.len() as int] == all[before.len() as int]);
}

// ---------------------------------------------------------------------------
// Decimal text
// ---------------------------------------------------------------------------

/// The number that a string of decimal digits denotes, reading '0'..'9' as
/// 0..9, most significant digit first.
pub open spec fn decimal_value(digits: Seq<char>) -> int
    decreases digits.len(),
{
    if digits.len() == 0 {
        0
    } else {
        decimal_value(digits.drop_last()) * 10 + (digits.last() as int - '0' as int)
    }
}

/// The decimal text of a number is made of the ASCII digits '0' to '9',
/// has more than one digit exactly when the number is ten or more, starts
/// with a nonzero digit unless the number is zero, and reads back, in base
/// ten, as the number itself.
pub proof fn law_decimal_reads_back(n: nat)
    ensures
        decimal(n).len() >= 1,
        forall|i: int| 0 <= i < decimal(n).len() ==> '0' <= #[trigger] decimal(n)[i] <= '9',
        decimal(n).len() > 1 <==> n >= 10,
        n >= 1 ==> decimal(n)[0] != '0',
        decimal_value(decimal(n)) == n,
    decreases n,
{
    assert('0' as int == 48);
    assert(decimal_value(Seq::<char>::empty()) == 0);
    if n < 10 {
        assert(decimal(n) == seq![digit_char(n)]);
        assert(decimal(n).drop_last() =~= Seq::<char>::empty());
        assert(digit_char(n) as int == 48 + n);
    } else {
        law_decimal_reads_back(n / 10);
        let d = n % 10;
        assert(digit_char(d) as int == 48 + d);
        assert(decimal(n).drop_last() =~= decimal(n / 10));
        assert(n == (n / 10) * 10 + d);
        assert forall|i: int| 0 <= i < decimal(n).len() implies '0' <= #[trigger] decimal(n)[i]
            <= '9' by {
            if i < decimal(n / 10).len() {
                assert(decimal(n)[i] == decimal(n / 10)[i]);
            }
        }
        assert(decimal(n)[0] == decimal(n / 10)[0]);
    }
}

} // verus!
