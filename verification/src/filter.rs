use vstd::prelude::*;
use vstd::multiset::Multiset;
use crate::models::{
    ManufacturerEntry, PeripheralProperties, PropertiesView, ScanFilter, ScanFilterView,
    opt_properties_view,
};

verus! {

/// The data stored under `key`, taken from the first entry with that key.
pub open spec fn manufacturer_value(data: Seq<(u16, Seq<u8>)>, key: u16) -> Option<Seq<u8>>
    decreases data.len(),
{
    if data.len() == 0 {
        None
    } else if data[0].0 == key {
        Some(data[0].1)
    } else {
        manufacturer_value(data.drop_first(), key)
    }
}

/// `data` and `value` agree on the bits of `mask`, position by position, as
/// far as all three reach.
pub open spec fn masked_match(data: Seq<u8>, mask: Seq<u8>, value: Seq<u8>) -> bool {
    forall|i: int|
        0 <= i < data.len() && i < mask.len() && i < value.len() ==> (#[trigger] data[i]
            & mask[i]) == (value[i] & mask[i])
}

/// Some advertised service is one of `wanted`.
pub open spec fn any_service(services: Seq<u128>, wanted: Seq<u128>) -> bool {
    exists|i: int| 0 <= i < services.len() && wanted.contains(#[trigger] services[i])
}

/// Every service of `wanted` is advertised.
pub open spec fn all_services(services: Seq<u128>, wanted: Seq<u128>) -> bool {
    forall|i: int| 0 <= i < wanted.len() ==> services.contains(#[trigger] wanted[i])
}

/// Whether a peripheral with these properties (absent when they could not be
/// read) is kept by the filter. Without a filter every peripheral is kept;
/// otherwise a peripheral without properties or out of range is dropped.
pub open spec fn passes_filter(props: Option<PropertiesView>, filter: ScanFilterView) -> bool {
    match filter {
        ScanFilterView::NoFilter => true,
        _ => match props {
            None => false,
            Some(p) => p.rssi is Some && match filter {
                ScanFilterView::NoFilter => true,
                ScanFilterView::Service(u) => p.services.contains(u),
                ScanFilterView::AnyService(us) => any_service(p.services, us),
                ScanFilterView::AllServices(us) => all_services(p.services, us),
                ScanFilterView::ManufacturerData(k, v) => manufacturer_value(
                    p.manufacturer_data,
                    k,
                ) == Some(v),
                ScanFilterView::ManufacturerDataMasked(k, v, m) => match manufacturer_value(
                    p.manufacturer_data,
                    k,
                ) {
                    Some(d) => masked_match(d, m, v),
                    None => false,
                },
            },
        },
    }
}

/// The view of a list of optional properties.
pub open spec fn properties_views(props: Seq<Option<PeripheralProperties>>) -> Seq<
    Option<PropertiesView>,
> {
    props.map_values(|p: Option<PeripheralProperties>| opt_properties_view(p))
}

/// Positions, in increasing order, of the peripherals the filter drops.
pub open spec fn removal_indices(props: Seq<Option<PropertiesView>>, filter: ScanFilterView) -> Seq<
    int,
>
    decreases props.len(),
{
    if props.len() == 0 {
        seq![]
    } else {
        let rest = removal_indices(props.drop_last(), filter);
        if passes_filter(props.last(), filter) {
            rest
        } else {
            rest.push(props.len() - 1)
        }
    }
}

/// The sequence after `Vec::swap_remove(i)`.
pub open spec fn swap_removed<T>(s: Seq<T>, i: int) -> Seq<T> {
    s.update(i, s.last()).drop_last()
}

/// Applies `swap_removed` at each position of `idx`, the last position first.
pub open spec fn swap_remove_all<T>(s: Seq<T>, idx: Seq<int>) -> Seq<T>
    decreases idx.len(),
{
    if idx.len() == 0 {
        s
    } else {
        swap_remove_all(swap_removed(s, idx.last()), idx.drop_last())
    }
}

fn contains_uuid(v: &Vec<u128>, x: u128) -> (r: bool)
    ensures
        r == v@.contains(x),
{
    let mut i: usize = 0;
    while i < v.len()
        invariant
            i <= v.len(),
            forall|j: int| 0 <= j < i ==> v@[j] != x,
        decreases v.len() - i,
    {
        if v[i] == x {
            assert(v@[i as int] == x);
            return true;
        }
        i = i + 1;
    }
    false
}

fn has_any_service(services: &Vec<u128>, wanted: &Vec<u128>) -> (r: bool)
    ensures
        r == any_service(services@, wanted@),
{
    let mut i: usize = 0;
    while i < services.len()
        invariant
            i <= services.len(),
            forall|j: int| 0 <= j < i ==> !wanted@.contains(#[trigger] services@[j]),
        decreases services.len() - i,
    {
        if contains_uuid(wanted, services[i]) {
            return true;
        }
        i = i + 1;
    }
    false
}

fn has_all_services(services: &Vec<u128>, wanted: &Vec<u128>) -> (r: bool)
    ensures
        r == all_services(services@, wanted@),
{
    let mut i: usize = 0;
    while i < wanted.len()
        invariant
            i <= wanted.len(),
            forall|j: int| 0 <= j < i ==> services@.contains(#[trigger] wanted@[j]),
        decreases wanted.len() - i,
    {
        if !contains_uuid(services, wanted[i]) {
            return false;
        }
        i = i + 1;
    }
    true
}

fn manufacturer_lookup(data: &Vec<ManufacturerEntry>, key: u16) -> (r: Option<&Vec<u8>>)
    ensures
        match r {
            Some(d) => manufacturer_value(
                data@.map_values(|e: ManufacturerEntry| (e.key, e.data@)),
                key,
            ) == Some(d@),
            None => manufacturer_value(
                data@.map_values(|e: ManufacturerEntry| (e.key, e.data@)),
                key,
            ) is None,
        },
{
    let ghost full = data@.map_values(|e: ManufacturerEntry| (e.key, e.data@));
    assert(full.skip(0) =~= full);
    let mut i: usize = 0;
    while i < data.len()
        invariant
            i <= data.len(),
            full == data@.map_values(|e: ManufacturerEntry| (e.key, e.data@)),
            manufacturer_value(full, key) == manufacturer_value(full.skip(i as int), key),
        decreases data.len() - i,
    {
        assert(full.skip(i as int).drop_first() =~= full.skip(i + 1));
        if data[i].key == key {
            return Some(&data[i].data);
        }
        i = i + 1;
    }
    assert(full.skip(i as int).len() == 0);
    None
}

fn bytes_equal(a: &Vec<u8>, b: &Vec<u8>) -> (r: bool)
    ensures
        r == (a@ == b@),
{
    if a.len() != b.len() {
        return false;
    }
    let mut i: usize = 0;
    while i < a.len()
        invariant
            a.len() == b.len(),
            i <= a.len(),
            forall|j: int| 0 <= j < i ==> a@[j] == b@[j],
        decreases a.len() - i,
    {
        if a[i] != b[i] {
            return false;
        }
        i = i + 1;
    }
    assert(a@ =~= b@);
    true
}

fn masked_equal(data: &Vec<u8>, mask: &Vec<u8>, value: &Vec<u8>) -> (r: bool)
    ensures
        r == masked_match(data@, mask@, value@),
{
    let mut i: usize = 0;
    while i < data.len() && i < mask.len() && i < value.len()
        invariant
            i <= data.len(),
            forall|j: int|
                0 <= j < i && j < data.len() && j < mask.len() && j < value.len() ==> (
                #[trigger] data@[j] & mask@[j]) == (value@[j] & mask@[j]),
        decreases data.len() - i,
    {
        if (data[i] & mask[i]) != (value[i] & mask[i]) {
            assert(!((data@[i as int] & mask@[i as int]) == (value@[i as int] & mask@[i as int])));
            return false;
        }
        i = i + 1;
    }
    true
}

/// Whether a peripheral with the given properties is kept by `filter`.
pub fn passes(props: &Option<PeripheralProperties>, filter: &ScanFilter) -> (r: bool)
    ensures
        r == passes_filter(opt_properties_view(*props), filter@),
{
    if let ScanFilter::NoFilter = filter {
        return true;
    }
    let p = match props {
        Some(p) => p,
        None => {
            return false;
        },
    };
    if p.rssi.is_none() {
        return false;
    }
    match filter {
        ScanFilter::NoFilter => true,
        ScanFilter::Service(u) => contains_uuid(&p.services, *u),
        ScanFilter::AnyService(us) => has_any_service(&p.services, us),
        ScanFilter::AllServices(us) => has_all_services(&p.services, us),
        ScanFilter::ManufacturerData(k, v) => match manufacturer_lookup(&p.manufacturer_data, *k) {
            Some(d) => bytes_equal(d, v),
            None => false,
        },
        ScanFilter::ManufacturerDataMasked(k, v, m) => match manufacturer_lookup(
            &p.manufacturer_data,
            *k,
        ) {
            Some(d) => masked_equal(d, m, v),
            None => false,
        },
    }
}

/// Drops from `discovered` the peripherals that `filter` does not keep, where
/// `properties[i]` holds what could be read of `discovered[i]`. The dropped
/// positions are removed with `swap_remove`, the highest position first, so
/// the kept peripherals may change their order.
pub fn filter_peripherals<T>(
    discovered: &mut Vec<T>,
    properties: &Vec<Option<PeripheralProperties>>,
    filter: &ScanFilter,
)
    requires
        old(discovered).len() == properties.len(),
    ensures
        final(discovered)@ == swap_remove_all(
            old(discovered)@,
            removal_indices(properties_views(properties@), filter@),
        ),
        final(discovered)@.to_multiset() == kept_by_filter(
            old(discovered)@,
            properties_views(properties@),
            filter@,
        ).to_multiset(),
{
    let ghost pv = properties_views(properties@);
    let ghost start = discovered@;
    let n: usize = properties.len();
    let mut remove: Vec<usize> = Vec::new();
    let mut i: usize = 0;
    while i < n
        invariant
            n == properties.len(),
            pv == properties_views(properties@),
            i <= n,
            remove@.map_values(|x: usize| x as int) == removal_indices(pv.take(i as int), filter@),
            forall|j: int| 0 <= j < remove.len() ==> #[trigger] remove@[j] + (remove.len() - j) <= i,
        decreases n - i,
    {
        assert(pv.take(i + 1).drop_last() =~= pv.take(i as int));
        assert(pv.take(i + 1).last() == opt_properties_view(properties@[i as int]));
        if !passes(&properties[i], filter) {
            remove.push(i);
        }
        assert(remove@.map_values(|x: usize| x as int) =~= removal_indices(pv.take(i + 1), filter@));
        i = i + 1;
    }
    assert(pv.take(n as int) =~= pv);
    let ghost rs = remove@.map_values(|x: usize| x as int);
    let mut k: usize = remove.len();
    assert(rs.take(k as int) =~= rs);
    while k > 0
        invariant
            rs == remove@.map_values(|x: usize| x as int),
            k <= remove.len(),
            discovered.len() + (remove.len() - k) == start.len(),
            forall|j: int| 0 <= j < k ==> #[trigger] remove@[j] + (k - j) <= discovered.len(),
            swap_remove_all(start, rs) == swap_remove_all(discovered@, rs.take(k as int)),
        decreases k,
    {
        let at: usize = remove[k - 1];
        assert(remove@[k - 1] + 1 <= discovered.len());
        assert(rs.take(k as int).drop_last() =~= rs.take(k - 1));
        assert(rs.take(k as int).last() == at as int);
        discovered.swap_remove(at);
        k = k - 1;
    }
    proof {
        lemma_filter_keeps_exactly_the_matches(start, pv, filter@);
    }
}

/// Whether a device found by a continuous scan is forwarded: always without a
/// filter, otherwise when the filter keeps it.
pub fn should_forward(filter: &Option<ScanFilter>, props: &Option<PeripheralProperties>) -> (r:
    bool)
    ensures
        r == match filter {
            None => true,
            Some(f) => passes_filter(opt_properties_view(*props), f@),
        },
{
    match filter {
        None => true,
        Some(f) => passes(props, f),
    }
}

/// The service UUIDs handed to the adapter when a scan starts with `filter`:
/// the filter's services for the service filters, none for the others.
pub open spec fn adapter_services(filter: ScanFilterView) -> Seq<u128> {
    match filter {
        ScanFilterView::Service(u) => seq![u],
        ScanFilterView::AnyService(us) => us,
        ScanFilterView::AllServices(us) => us,
        _ => seq![],
    }
}

fn copy_uuids(v: &Vec<u128>) -> (r: Vec<u128>)
    ensures
        r@ == v@,
{
    let mut r: Vec<u128> = Vec::new();
    let mut i: usize = 0;
    while i < v.len()
        invariant
            i <= v.len(),
            r@ == v@.take(i as int),
        decreases v.len() - i,
    {
        r.push(v[i]);
        assert(r@ =~= v@.take(i + 1));
        i = i + 1;
    }
    assert(v@.take(v.len() as int) =~= v@);
    r
}

/// The service UUIDs of the adapter scan for `filter`.
pub fn scan_services(filter: &ScanFilter) -> (r: Vec<u128>)
    ensures
        r@ == adapter_services(filter@),
{
    match filter {
        ScanFilter::Service(u) => {
            let mut r = Vec::new();
            r.push(*u);
            assert(r@ =~= seq![*u]);
            r
        },
        ScanFilter::AnyService(us) => copy_uuids(us),
        ScanFilter::AllServices(us) => copy_uuids(us),
        _ => Vec::new(),
    }
}

/// The service UUIDs of the adapter scan for an optional filter; none when
/// there is no filter.
pub fn stream_scan_services(filter: &Option<ScanFilter>) -> (r: Vec<u128>)
    ensures
        r@ == match filter {
            None => seq![],
            Some(f) => adapter_services(f@),
        },
{
    match filter {
        None => Vec::new(),
        Some(f) => scan_services(f),
    }
}

/// The elements of `s` whose properties the filter keeps, in their order.
pub open spec fn kept_by_filter<T>(
    s: Seq<T>,
    props: Seq<Option<PropertiesView>>,
    filter: ScanFilterView,
) -> Seq<T>
    decreases s.len(),
{
    if s.len() == 0 || props.len() == 0 {
        seq![]
    } else {
        let rest = kept_by_filter(s.drop_last(), props.drop_last(), filter);
        if passes_filter(props.last(), filter) {
            rest.push(s.last())
        } else {
            rest
        }
    }
}

/// The elements of `s` at the positions of `idx`.
pub open spec fn picked<T>(s: Seq<T>, idx: Seq<int>) -> Seq<T> {
    idx.map_values(|i: int| s[i])
}

proof fn lemma_removal_indices_sorted(props: Seq<Option<PropertiesView>>, filter: ScanFilterView)
    ensures
        forall|j: int|
            0 <= j < removal_indices(props, filter).len() ==> 0 <= #[trigger] removal_indices(
                props,
                filter,
            )[j] < props.len(),
        forall|a: int, b: int|
            0 <= a < b < removal_indices(props, filter).len() ==> #[trigger] removal_indices(
                props,
                filter,
            )[a] < #[trigger] removal_indices(props, filter)[b],
    decreases props.len(),
{
    if props.len() > 0 {
        let p0 = props.drop_last();
        lemma_removal_indices_sorted(p0, filter);
        let r0 = removal_indices(p0, filter);
        let r = removal_indices(props, filter);
        if passes_filter(props.last(), filter) {
            assert(r == r0);
        } else {
            assert(r == r0.push(props.len() - 1));
            assert forall|a: int, b: int| 0 <= a < b < r.len() implies #[trigger] r[a] < #[trigger] r[b] by {
                if b < r0.len() {
                    assert(r0[a] < r0[b]);
                } else {
                    assert(r0[a] < p0.len());
                }
            }
        }
    }
}

proof fn lemma_swap_removed_multiset<T>(s: Seq<T>, i: int)
    requires
        0 <= i < s.len(),
    ensures
        swap_removed(s, i).to_multiset().insert(s[i]) == s.to_multiset(),
{
    broadcast use vstd::seq_lib::group_to_multiset_ensures;
    broadcast use vstd::multiset::group_multiset_axioms;

    let u = s.update(i, s.last());
    assert(u.drop_last() =~= u.remove(u.len() - 1));
    assert(u[u.len() - 1] == s.last());
    assert(u.to_multiset() == s.to_multiset().insert(s.last()).remove(s[i]));
    assert(swap_removed(s, i).to_multiset() == u.to_multiset().remove(s.last()));
    assert(swap_removed(s, i).to_multiset().insert(s[i]) =~= s.to_multiset());
}

proof fn lemma_swap_remove_all_multiset<T>(s: Seq<T>, idx: Seq<int>)
    requires
        forall|j: int| 0 <= j < idx.len() ==> 0 <= #[trigger] idx[j] < s.len(),
        forall|a: int, b: int| 0 <= a < b < idx.len() ==> #[trigger] idx[a] < #[trigger] idx[b],
    ensures
        swap_remove_all(s, idx).to_multiset().add(picked(s, idx).to_multiset()) == s.to_multiset(),
    decreases idx.len(),
{
    broadcast use vstd::seq_lib::group_to_multiset_ensures;
    broadcast use vstd::multiset::group_multiset_axioms;

    if idx.len() == 0 {
        assert(picked(s, idx).to_multiset() =~= Multiset::empty());
        assert(swap_remove_all(s, idx).to_multiset().add(Multiset::empty()) =~= s.to_multiset());
    } else {
        let l: int = idx.last();
        let s1 = swap_removed(s, l);
        let rest = idx.drop_last();
        assert forall|j: int| 0 <= j < rest.len() implies 0 <= #[trigger] rest[j] < s1.len() by {
            assert(idx[j] < idx[idx.len() - 1]);
        }
        lemma_swap_remove_all_multiset(s1, rest);
        assert(picked(s1, rest) =~= picked(s, rest)) by {
            assert forall|j: int| 0 <= j < rest.len() implies picked(s1, rest)[j] == picked(s, rest)[j] by {
                assert(idx[j] < idx[idx.len() - 1]);
            }
        }
        assert(picked(s, idx) =~= picked(s, rest).push(s[l]));
        lemma_swap_removed_multiset(s, l);
        assert(swap_remove_all(s, idx).to_multiset().add(picked(s, idx).to_multiset())
            =~= s.to_multiset());
    }
}

proof fn lemma_split_by_filter<T>(
    s: Seq<T>,
    props: Seq<Option<PropertiesView>>,
    filter: ScanFilterView,
)
    requires
        s.len() == props.len(),
    ensures
        kept_by_filter(s, props, filter).to_multiset().add(
            picked(s, removal_indices(props, filter)).to_multiset(),
        ) == s.to_multiset(),
    decreases s.len(),
{
    broadcast use vstd::seq_lib::group_to_multiset_ensures;
    broadcast use vstd::multiset::group_multiset_axioms;

    if s.len() == 0 {
        assert(picked(s, removal_indices(props, filter)) =~= seq![]);
        assert(kept_by_filter(s, props, filter).to_multiset().add(
            picked(s, removal_indices(props, filter)).to_multiset(),
        ) =~= s.to_multiset());
    } else {
        let s0 = s.drop_last();
        let p0 = props.drop_last();
        lemma_split_by_filter(s0, p0, filter);
        lemma_removal_indices_sorted(p0, filter);
        let r0 = removal_indices(p0, filter);
        assert(picked(s, r0) =~= picked(s0, r0));
        assert(s0.push(s.last()) =~= s);
        if passes_filter(props.last(), filter) {
            assert(kept_by_filter(s, props, filter).to_multiset().add(
                picked(s, removal_indices(props, filter)).to_multiset(),
            ) =~= s.to_multiset());
        } else {
            assert(picked(s, r0.push(s.len() - 1)) =~= picked(s0, r0).push(s.last()));
            assert(kept_by_filter(s, props, filter).to_multiset().add(
                picked(s, removal_indices(props, filter)).to_multiset(),
            ) =~= s.to_multiset());
        }
    }
}

/// What remains after filtering is, up to order, exactly the peripherals the
/// filter keeps: each kept one stays, each dropped one goes.
pub proof fn lemma_filter_keeps_exactly_the_matches<T>(
    s: Seq<T>,
    props: Seq<Option<PropertiesView>>,
    filter: ScanFilterView,
)
    requires
        s.len() == props.len(),
    ensures
        swap_remove_all(s, removal_indices(props, filter)).to_multiset() == kept_by_filter(
            s,
            props,
            filter,
        ).to_multiset(),
{
    broadcast use vstd::multiset::group_multiset_axioms;

    let idx = removal_indices(props, filter);
    lemma_removal_indices_sorted(props, filter);
    lemma_swap_remove_all_multiset(s, idx);
    lemma_split_by_filter(s, props, filter);
    let a = swap_remove_all(s, idx).to_multiset();
    let b = kept_by_filter(s, props, filter).to_multiset();
    let c = picked(s, idx).to_multiset();
    assert(a.add(c) == b.add(c));
    assert(a =~= b) by {
        assert forall|x: T| a.count(x) == b.count(x) by {
            assert(a.add(c).count(x) == b.add(c).count(x));
        }
    }
}

/// Without a filter nothing is dropped: the peripherals stay as they are, in
/// their order.
pub proof fn lemma_no_filter_keeps_all<T>(s: Seq<T>, props: Seq<Option<PropertiesView>>)
    ensures
        removal_indices(props, ScanFilterView::NoFilter) == Seq::<int>::empty(),
        swap_remove_all(s, removal_indices(props, ScanFilterView::NoFilter)) == s,
    decreases props.len(),
{
    if props.len() > 0 {
        lemma_no_filter_keeps_all(s, props.drop_last());
    }
}

proof fn lemma_kept_pass(props: Seq<Option<PropertiesView>>, filter: ScanFilterView)
    ensures
        forall|i: int|
            0 <= i < kept_by_filter(props, props, filter).len() ==> passes_filter(
                #[trigger] kept_by_filter(props, props, filter)[i],
                filter,
            ),
    decreases props.len(),
{
    if props.len() > 0 {
        let p0 = props.drop_last();
        lemma_kept_pass(p0, filter);
        let rest = kept_by_filter(p0, p0, filter);
        let k = kept_by_filter(props, props, filter);
        if passes_filter(props.last(), filter) {
            assert(k == rest.push(props.last()));
            assert forall|i: int| 0 <= i < k.len() implies passes_filter(#[trigger] k[i], filter) by {
                if i < rest.len() {
                    assert(k[i] == rest[i]);
                }
            }
        } else {
            assert(k == rest);
        }
    }
}

proof fn lemma_all_pass_nothing_removed(props: Seq<Option<PropertiesView>>, filter: ScanFilterView)
    requires
        forall|i: int| 0 <= i < props.len() ==> passes_filter(#[trigger] props[i], filter),
    ensures
        removal_indices(props, filter) == Seq::<int>::empty(),
    decreases props.len(),
{
    if props.len() > 0 {
        let p0 = props.drop_last();
        assert forall|i: int| 0 <= i < p0.len() implies passes_filter(#[trigger] p0[i], filter) by {
            assert(p0[i] == props[i]);
        }
        lemma_all_pass_nothing_removed(p0, filter);
        assert(passes_filter(props[props.len() - 1], filter));
    }
}

/// Filtering what a filter kept, with the properties moved along with the
/// peripherals, removes nothing more.
pub proof fn lemma_filter_twice_removes_nothing(
    props: Seq<Option<PropertiesView>>,
    filter: ScanFilterView,
)
    ensures
        removal_indices(swap_remove_all(props, removal_indices(props, filter)), filter)
            == Seq::<int>::empty(),
{
    broadcast use vstd::seq_lib::group_to_multiset_ensures;

    let r = swap_remove_all(props, removal_indices(props, filter));
    let kept = kept_by_filter(props, props, filter);
    lemma_filter_keeps_exactly_the_matches(props, props, filter);
    lemma_kept_pass(props, filter);
    assert forall|i: int| 0 <= i < r.len() implies passes_filter(#[trigger] r[i], filter) by {
        assert(r.contains(r[i]));
        assert(r.to_multiset().count(r[i]) > 0);
        assert(kept.contains(r[i]));
        let j = choose|j: int| 0 <= j < kept.len() && kept[j] == r[i];
        assert(passes_filter(kept[j], filter));
    }
    lemma_all_pass_nothing_removed(r, filter);
}

/// Position `i` holds the first entry stored under `key`.
pub open spec fn first_key_at(data: Seq<(u16, Seq<u8>)>, key: u16, i: int) -> bool {
    0 <= i < data.len() && data[i].0 == key && forall|j: int| 0 <= j < i ==> data[j].0 != key
}

/// The manufacturer data under a key is that of the first entry with the key,
/// and there is none exactly when no entry has the key.
pub proof fn lemma_manufacturer_value_meaning(data: Seq<(u16, Seq<u8>)>, key: u16)
    ensures
        manufacturer_value(data, key) is None <==> forall|i: int|
            0 <= i < data.len() ==> #[trigger] data[i].0 != key,
        forall|i: int| #[trigger] first_key_at(data, key, i) ==> manufacturer_value(data, key) == Some(
            data[i].1,
        ),
        manufacturer_value(data, key) is Some ==> exists|i: int| #[trigger] first_key_at(data, key, i),
    decreases data.len(),
{
    if data.len() > 0 {
        let rest = data.drop_first();
        lemma_manufacturer_value_meaning(rest, key);
        if data[0].0 == key {
            assert(first_key_at(data, key, 0));
            assert forall|i: int| #[trigger] first_key_at(data, key, i) implies manufacturer_value(
                data,
                key,
            ) == Some(data[i].1) by {
                if i > 0 {
                    assert(data[0].0 != key);
                }
            }
        } else {
            assert forall|i: int| #[trigger] first_key_at(data, key, i) implies manufacturer_value(
                data,
                key,
            ) == Some(data[i].1) by {
                assert(i != 0);
                assert(rest[i - 1] == data[i]);
                assert forall|j: int| 0 <= j < i - 1 implies rest[j].0 != key by {
                    assert(rest[j] == data[j + 1]);
                }
                assert(first_key_at(rest, key, i - 1));
            }
            if manufacturer_value(data, key) is Some {
                let i = choose|i: int| #[trigger] first_key_at(rest, key, i);
                assert forall|j: int| 0 <= j < i + 1 implies data[j].0 != key by {
                    if j > 0 {
                        assert(rest[j - 1] == data[j]);
                    }
                }
                assert(first_key_at(data, key, i + 1));
            }
            if forall|i: int| 0 <= i < rest.len() ==> #[trigger] rest[i].0 != key {
                assert forall|i: int| 0 <= i < data.len() implies #[trigger] data[i].0 != key by {
                    if i > 0 {
                        assert(rest[i - 1] == data[i]);
                    }
                }
            }
            if forall|i: int| 0 <= i < data.len() ==> #[trigger] data[i].0 != key {
                assert forall|i: int| 0 <= i < rest.len() implies #[trigger] rest[i].0 != key by {
                    assert(rest[i] == data[i + 1]);
                }
            }
        }
    }
}

/// Without a filter every peripheral is kept. With a filter, a peripheral
/// whose properties could not be read, or that reports no signal strength, is
/// dropped.
pub proof fn lemma_filter_needs_readable_devices_in_range(
    props: Option<PropertiesView>,
    filter: ScanFilterView,
)
    ensures
        filter is NoFilter ==> passes_filter(props, filter),
        !(filter is NoFilter) && (props is None || props->0.rssi is None) ==> !passes_filter(
            props,
            filter,
        ),
{
}

/// What each filter keeps of a readable peripheral in range:
/// - `Service(u)` keeps it when `u` is among its advertised services;
/// - `AnyService(us)` when some advertised service, at any position, is in `us`;
/// - `AllServices(us)` when every service of `us` is advertised;
/// - `ManufacturerData(k, v)` when its first data under `k` equals `v` byte for
///   byte, with the same length;
/// - `ManufacturerDataMasked(k, v, m)` when it has data `d` under `k` and `d`
///   and `v` agree on the bits of `m` at every position all three reach.
pub proof fn lemma_passes_filter_meaning(p: PropertiesView, filter: ScanFilterView)
    requires
        p.rssi is Some,
    ensures
        filter matches ScanFilterView::Service(u) ==> (passes_filter(Some(p), filter)
            <==> p.services.contains(u)),
        filter matches ScanFilterView::AnyService(us) ==> (passes_filter(Some(p), filter)
            <==> exists|u: u128| p.services.contains(u) && #[trigger] us.contains(u)),
        filter matches ScanFilterView::AllServices(us) ==> (passes_filter(Some(p), filter)
            <==> forall|u: u128| #[trigger] us.contains(u) ==> p.services.contains(u)),
        filter matches ScanFilterView::ManufacturerData(k, v) ==> (passes_filter(Some(p), filter)
            <==> exists|i: int|
            #[trigger] first_key_at(p.manufacturer_data, k, i) && p.manufacturer_data[i].1.len()
                == v.len() && forall|x: int|
                0 <= x < v.len() ==> p.manufacturer_data[i].1[x] == v[x]),
        filter matches ScanFilterView::ManufacturerDataMasked(k, v, m) ==> (passes_filter(
            Some(p),
            filter,
        ) <==> exists|i: int|
            #[trigger] first_key_at(p.manufacturer_data, k, i) && forall|x: int|
                0 <= x < p.manufacturer_data[i].1.len() && x < m.len() && x < v.len() ==> (
                p.manufacturer_data[i].1[x] & m[x]) == (v[x] & m[x])),
{
    let props = Some(p);
    let md = p.manufacturer_data;
    match filter {
        ScanFilterView::AnyService(us) => {
            if passes_filter(props, filter) {
                let i = choose|i: int| 0 <= i < p.services.len() && us.contains(#[trigger] p.services[i]);
                assert(p.services.contains(p.services[i]));
            }
            if exists|u: u128| p.services.contains(u) && #[trigger] us.contains(u) {
                let u = choose|u: u128| p.services.contains(u) && #[trigger] us.contains(u);
                let i = choose|i: int| 0 <= i < p.services.len() && p.services[i] == u;
                assert(us.contains(p.services[i]));
            }
        },
        ScanFilterView::AllServices(us) => {
            if passes_filter(props, filter) {
                assert forall|u: u128| #[trigger] us.contains(u) implies p.services.contains(u) by {
                    let i = choose|i: int| 0 <= i < us.len() && us[i] == u;
                    assert(p.services.contains(us[i]));
                }
            }
            if forall|u: u128| #[trigger] us.contains(u) ==> p.services.contains(u) {
                assert forall|i: int| 0 <= i < us.len() implies p.services.contains(
                    #[trigger] us[i],
                ) by {
                    assert(us.contains(us[i]));
                }
            }
        },
        ScanFilterView::ManufacturerData(k, v) => {
            lemma_manufacturer_value_meaning(md, k);
            if passes_filter(props, filter) {
                let i = choose|i: int| #[trigger] first_key_at(md, k, i);
                assert(md[i].1 == v);
            }
            if exists|i: int|
                #[trigger] first_key_at(md, k, i) && md[i].1.len() == v.len() && forall|x: int|
                    0 <= x < v.len() ==> md[i].1[x] == v[x] {
                let i = choose|i: int|
                    #[trigger] first_key_at(md, k, i) && md[i].1.len() == v.len() && forall|x: int|
                        0 <= x < v.len() ==> md[i].1[x] == v[x];
                assert(md[i].1 =~= v);
            }
        },
        ScanFilterView::ManufacturerDataMasked(k, v, m) => {
            lemma_manufacturer_value_meaning(md, k);
            if passes_filter(props, filter) {
                let i = choose|i: int| #[trigger] first_key_at(md, k, i);
                assert(manufacturer_value(md, k) == Some(md[i].1));
                assert forall|x: int|
                    0 <= x < md[i].1.len() && x < m.len() && x < v.len() implies (md[i].1[x]
                    & m[x]) == (v[x] & m[x]) by {
                    assert(masked_match(md[i].1, m, v));
                }
            }
            if exists|i: int|
                #[trigger] first_key_at(md, k, i) && forall|x: int|
                    0 <= x < md[i].1.len() && x < m.len() && x < v.len() ==> (md[i].1[x] & m[x])
                        == (v[x] & m[x]) {
                let i = choose|i: int|
                    #[trigger] first_key_at(md, k, i) && forall|x: int|
                        0 <= x < md[i].1.len() && x < m.len() && x < v.len() ==> (md[i].1[x]
                            & m[x]) == (v[x] & m[x]);
                assert(manufacturer_value(md, k) == Some(md[i].1));
                assert(masked_match(md[i].1, m, v));
            }
        },
        _ => {},
    }
}

/// Each peripheral paired with its properties.
pub open spec fn paired<T>(s: Seq<T>, props: Seq<Option<PropertiesView>>) -> Seq<
    (T, Option<PropertiesView>),
> {
    Seq::new(s.len(), |i: int| (s[i], props[i]))
}

/// The peripherals a filter keeps are those whose properties pass it, in
/// their order and none other.
pub proof fn lemma_kept_are_the_passing<T>(
    s: Seq<T>,
    props: Seq<Option<PropertiesView>>,
    filter: ScanFilterView,
)
    requires
        s.len() == props.len(),
    ensures
        kept_by_filter(s, props, filter) == paired(s, props).filter(
            |e: (T, Option<PropertiesView>)| passes_filter(e.1, filter),
        ).map_values(|e: (T, Option<PropertiesView>)| e.0),
    decreases s.len(),
{
    reveal_with_fuel(Seq::filter, 1);
    let pred = |e: (T, Option<PropertiesView>)| passes_filter(e.1, filter);
    if s.len() == 0 {
        assert(paired(s, props).filter(pred) =~= Seq::<(T, Option<PropertiesView>)>::empty());
        assert(kept_by_filter(s, props, filter) =~= paired(s, props).filter(pred).map_values(
            |e: (T, Option<PropertiesView>)| e.0,
        ));
    } else {
        let s0 = s.drop_last();
        let p0 = props.drop_last();
        lemma_kept_are_the_passing(s0, p0, filter);
        assert(paired(s, props).drop_last() =~= paired(s0, p0));
        let f0 = paired(s0, p0).filter(pred);
        if passes_filter(props.last(), filter) {
            assert(paired(s, props).filter(pred) == f0.push((s.last(), props.last())));
            assert(kept_by_filter(s, props, filter) =~= paired(s, props).filter(pred).map_values(
                |e: (T, Option<PropertiesView>)| e.0,
            ));
        } else {
            assert(paired(s, props).filter(pred) == f0);
            assert(kept_by_filter(s, props, filter) =~= paired(s, props).filter(pred).map_values(
                |e: (T, Option<PropertiesView>)| e.0,
            ));
        }
    }
}

/// The adapter scan is asked for exactly the services a service filter names
/// (the one of `Service`, the list of `AnyService` and `AllServices`, in its
/// order), and for none otherwise.
pub proof fn lemma_adapter_services_meaning(filter: ScanFilterView)
    ensures
        filter matches ScanFilterView::Service(u) ==> adapter_services(filter).len() == 1
            && adapter_services(filter)[0] == u,
        filter matches ScanFilterView::AnyService(us) ==> adapter_services(filter) =~= us,
        filter matches ScanFilterView::AllServices(us) ==> adapter_services(filter) =~= us,
        (filter is NoFilter || filter is ManufacturerData || filter is ManufacturerDataMasked)
            ==> adapter_services(filter).len() == 0,
{
}

} // verus!
