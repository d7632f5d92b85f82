use vstd::prelude::*;
use crate::address_map::{AddressMap, after_insert, after_remove, has_key, lookup, unique_keys};
use crate::error::Error;
use crate::uuids::{hyphenated_lower, uuid_text};

verus! {

/// A characteristic of a connected device together with its UUID.
pub struct CharacteristicEntry<Ch> {
    pub uuid: u128,
    pub characteristic: Ch,
}

/// A callback that receives the notifications of one characteristic.
pub struct Listener<C> {
    pub uuid: u128,
    pub callback: C,
}

/// What the client keeps of a connected device: the peripheral, its
/// characteristics, the notification listeners, the task that forwards
/// notifications, and the handler to run once the device disconnects.
pub struct DeviceState<P, Ch, C, H, D> {
    pub peripheral: P,
    pub characs: Vec<CharacteristicEntry<Ch>>,
    pub notify_listeners: Vec<Listener<C>>,
    pub listen_handle: Option<H>,
    pub on_disconnect: D,
}

/// The listeners that are not for `uuid`, in their order.
pub open spec fn without_uuid<C>(s: Seq<Listener<C>>, uuid: u128) -> Seq<Listener<C>> {
    s.filter(|l: Listener<C>| l.uuid != uuid)
}

/// The positions, in increasing order, of the listeners for `uuid`.
pub open spec fn positions_for<C>(s: Seq<Listener<C>>, uuid: u128) -> Seq<int>
    decreases s.len(),
{
    if s.len() == 0 {
        seq![]
    } else {
        let rest = positions_for(s.drop_last(), uuid);
        if s.last().uuid == uuid {
            rest.push(s.len() - 1)
        } else {
            rest
        }
    }
}

/// The position of the first characteristic with `uuid`, if any.
pub open spec fn first_characteristic<Ch>(s: Seq<CharacteristicEntry<Ch>>, uuid: u128) -> Option<
    int,
> {
    if exists|i: int| 0 <= i < s.len() && #[trigger] s[i].uuid == uuid {
        Some(
            choose|i: int|
                0 <= i < s.len() && #[trigger] s[i].uuid == uuid && forall|j: int|
                    0 <= j < i ==> s[j].uuid != uuid,
        )
    } else {
        None
    }
}

impl<P, Ch, C, H, D> DeviceState<P, Ch, C, H, D> {
    /// The state of a freshly connected device: no listener yet.
    pub fn new(
        peripheral: P,
        characs: Vec<CharacteristicEntry<Ch>>,
        listen_handle: Option<H>,
        on_disconnect: D,
    ) -> (s: Self)
        ensures
            s.peripheral == peripheral,
            s.characs == characs,
            s.notify_listeners@ == Seq::<Listener<C>>::empty(),
            s.listen_handle == listen_handle,
            s.on_disconnect == on_disconnect,
    {
        DeviceState {
            peripheral,
            characs,
            notify_listeners: Vec::new(),
            listen_handle,
            on_disconnect,
        }
    }

    /// The first characteristic with the given UUID.
    pub fn find_characteristic(&self, uuid: u128) -> (r: Option<&Ch>)
        ensures
            match first_characteristic(self.characs@, uuid) {
                Some(i) => r == Some(&self.characs@[i].characteristic),
                None => r is None,
            },
    {
        let mut i: usize = 0;
        while i < self.characs.len()
            invariant
                i <= self.characs.len(),
                forall|j: int| 0 <= j < i ==> #[trigger] self.characs@[j].uuid != uuid,
            decreases self.characs.len() - i,
        {
            if self.characs[i].uuid == uuid {
                let ghost s = self.characs@;
                assert(s[i as int].uuid == uuid);
                let ghost w = first_characteristic(s, uuid)->0;
                assert(w == i) by {
                    assert(s[w].uuid == uuid);
                    if w < i {
                        assert(s[w].uuid != uuid);
                    }
                    if w > i {
                        assert(s[i as int].uuid != uuid);
                    }
                }
                return Some(&self.characs[i].characteristic);
            }
            i = i + 1;
        }
        None
    }

    /// Registers a listener for the notifications of `uuid`, after the ones
    /// already registered.
    pub fn add_listener(&mut self, uuid: u128, callback: C)
        ensures
            final(self).notify_listeners@ == old(self).notify_listeners@.push(
                Listener { uuid, callback },
            ),
            final(self).peripheral == old(self).peripheral,
            final(self).characs == old(self).characs,
            final(self).listen_handle == old(self).listen_handle,
            final(self).on_disconnect == old(self).on_disconnect,
    {
        self.notify_listeners.push(Listener { uuid, callback });
    }

    /// Drops every listener for `uuid`; the others keep their order.
    pub fn remove_listeners(&mut self, uuid: u128)
        ensures
            final(self).notify_listeners@ == without_uuid(old(self).notify_listeners@, uuid),
            final(self).peripheral == old(self).peripheral,
            final(self).characs == old(self).characs,
            final(self).listen_handle == old(self).listen_handle,
            final(self).on_disconnect == old(self).on_disconnect,
    {
        let ghost start = self.notify_listeners@;
        let ghost pred = |l: Listener<C>| l.uuid != uuid;
        let mut i: usize = 0;
        let ghost mut k: int = 0;
        assert(start.take(0).filter(pred) =~= Seq::<Listener<C>>::empty());
        assert(self.notify_listeners@ =~= start.take(0).filter(pred) + start.skip(0));
        while i < self.notify_listeners.len()
            invariant
                0 <= k <= start.len(),
                pred == (|l: Listener<C>| l.uuid != uuid),
                i == start.take(k).filter(pred).len(),
                self.notify_listeners@ == start.take(k).filter(pred) + start.skip(k),
                self.peripheral == old(self).peripheral,
                self.characs == old(self).characs,
                self.listen_handle == old(self).listen_handle,
                self.on_disconnect == old(self).on_disconnect,
                start == old(self).notify_listeners@,
            decreases self.notify_listeners.len() - i,
        {
            let ghost kept = start.take(k).filter(pred);
            proof {
                reveal_with_fuel(Seq::filter, 1);
            }
            assert(self.notify_listeners@[i as int] == start[k]);
            assert(start.take(k + 1).drop_last() =~= start.take(k));
            assert(start.take(k + 1).last() == start[k]);
            if self.notify_listeners[i].uuid == uuid {
                self.notify_listeners.remove(i);
                assert(start.take(k + 1).filter(pred) == kept);
                assert(self.notify_listeners@ =~= kept + start.skip(k + 1));
            } else {
                assert(start.take(k + 1).filter(pred) == kept.push(start[k]));
                assert(self.notify_listeners@ =~= kept.push(start[k]) + start.skip(k + 1));
                i = i + 1;
            }
            proof {
                k = k + 1;
            }
        }
        assert(k == start.len()) by {
            assert(self.notify_listeners@.len() == i + start.len() - k);
        }
        assert(start.take(k) =~= start);
        assert(self.notify_listeners@ =~= without_uuid(start, uuid));
    }

    /// The positions, in increasing order, of the listeners for `uuid`: the
    /// callbacks a notification of that characteristic is handed to.
    pub fn listener_positions(&self, uuid: u128) -> (r: Vec<usize>)
        ensures
            r@.map_values(|x: usize| x as int) == positions_for(self.notify_listeners@, uuid),
    {
        let ghost s = self.notify_listeners@;
        let mut r: Vec<usize> = Vec::new();
        let mut i: usize = 0;
        while i < self.notify_listeners.len()
            invariant
                s == self.notify_listeners@,
                i <= s.len(),
                r@.map_values(|x: usize| x as int) == positions_for(s.take(i as int), uuid),
            decreases s.len() - i,
        {
            assert(s.take(i + 1).drop_last() =~= s.take(i as int));
            if self.notify_listeners[i].uuid == uuid {
                r.push(i);
            }
            assert(r@.map_values(|x: usize| x as int) =~= positions_for(s.take(i + 1), uuid));
            i = i + 1;
        }
        assert(s.take(i as int) =~= s);
        r
    }
}

/// The position of the connected device with the given address, or
/// `Error::NoDeviceConnected`.
pub fn locate_connected<T>(connected: &AddressMap<T>, address: &str) -> (r: Result<usize, Error>)
    ensures
        match r {
            Ok(i) => i < connected@.len() && connected@[i as int].0 == address@,
            Err(e) => !has_key(connected@, address@) && e == Error::NoDeviceConnected,
        },
{
    match connected.position(address) {
        Some(i) => Ok(i),
        None => Err(Error::NoDeviceConnected),
    }
}

/// The peripheral and characteristic to read, write or subscribe for the given
/// address and characteristic UUID. Fails with `Error::NoDeviceConnected` when
/// no device with that address is connected, and with
/// `Error::CharacNotAvailable`, carrying the UUID's text, when the device has
/// no such characteristic.
pub fn characteristic_for<'a, P, Ch, C, H, D>(
    connected: &'a AddressMap<DeviceState<P, Ch, C, H, D>>,
    address: &str,
    uuid: u128,
) -> (r: Result<(&'a P, &'a Ch), Error>)
    requires
        connected.wf(),
    ensures
        match lookup(connected@, address@) {
            None => r == Err::<(&P, &Ch), Error>(Error::NoDeviceConnected),
            Some(state) => match first_characteristic(state.characs@, uuid) {
                None => r matches Err(Error::CharacNotAvailable(t)) && t@ == hyphenated_lower(uuid),
                Some(i) => r == Ok::<(&P, &Ch), Error>(
                    (&state.peripheral, &state.characs@[i].characteristic),
                ),
            },
        },
{
    let state = match connected.get(address) {
        Some(s) => s,
        None => {
            return Err(Error::NoDeviceConnected);
        },
    };
    match state.find_characteristic(uuid) {
        Some(c) => Ok((&state.peripheral, c)),
        None => Err(Error::CharacNotAvailable(uuid_text(uuid))),
    }
}

/// Removes the state of a device that disconnected and hands it back, or
/// fails with `Error::NoDeviceConnected` when no device with that address is
/// connected.
pub fn take_device<T>(connected: &mut AddressMap<T>, address: &str) -> (r: Result<T, Error>)
    requires
        old(connected).wf(),
    ensures
        final(connected).wf(),
        final(connected)@ == crate::address_map::after_remove(old(connected)@, address@),
        match lookup(old(connected)@, address@) {
            Some(s) => r == Ok::<T, Error>(s),
            None => r == Err::<T, Error>(Error::NoDeviceConnected),
        },
{
    match connected.remove(address) {
        Some(s) => Ok(s),
        None => Err(Error::NoDeviceConnected),
    }
}

/// Settles the state of a device after a requested disconnect. When the
/// adapter's disconnect event already removed the device, the disconnect has
/// still succeeded and nothing is left to clean up; otherwise the taken state
/// is handed back for clean-up. Other errors stand.
pub fn settle_disconnect<T>(taken: Result<T, Error>) -> (r: Result<Option<T>, Error>)
    ensures
        match taken {
            Ok(s) => r == Ok::<Option<T>, Error>(Some(s)),
            Err(Error::NoDeviceConnected) => r == Ok::<Option<T>, Error>(None),
            Err(e) => r == Err::<Option<T>, Error>(e),
        },
{
    match taken {
        Ok(s) => Ok(Some(s)),
        Err(Error::NoDeviceConnected) => Ok(None),
        Err(e) => Err(e),
    }
}

/// After unsubscribing from `uuid` no listener for it is left, and every
/// listener for another characteristic is still there.
pub proof fn lemma_unsubscribe_removes_exactly<C>(s: Seq<Listener<C>>, uuid: u128)
    ensures
        forall|i: int|
            0 <= i < without_uuid(s, uuid).len() ==> #[trigger] without_uuid(s, uuid)[i].uuid != uuid,
        forall|i: int|
            0 <= i < s.len() && s[i].uuid != uuid ==> without_uuid(s, uuid).contains(#[trigger] s[i]),
{
    let pred = |l: Listener<C>| l.uuid != uuid;
    assert forall|i: int| 0 <= i < s.filter(pred).len() implies #[trigger] s.filter(pred)[i].uuid
        != uuid by {
        s.lemma_filter_pred(pred, i);
    }
    assert forall|i: int| 0 <= i < s.len() && s[i].uuid != uuid implies s.filter(pred).contains(
        #[trigger] s[i],
    ) by {
        s.lemma_filter_contains(pred, i);
    }
}

/// Subscribing to `uuid` and then unsubscribing from it leaves the listeners
/// of the other characteristics as they were.
pub proof fn lemma_subscribe_then_unsubscribe<C>(s: Seq<Listener<C>>, uuid: u128, callback: C)
    ensures
        without_uuid(s.push(Listener { uuid, callback }), uuid) == without_uuid(s, uuid),
{
    reveal_with_fuel(Seq::filter, 1);
    assert(s.push(Listener { uuid, callback }).drop_last() =~= s);
}

/// The positions handed a notification of `uuid` are exactly those of the
/// listeners for `uuid`.
pub proof fn lemma_positions_are_listeners_for<C>(s: Seq<Listener<C>>, uuid: u128)
    ensures
        forall|a: int, b: int|
            0 <= a < b < positions_for(s, uuid).len() ==> #[trigger] positions_for(s, uuid)[a]
                < #[trigger] positions_for(s, uuid)[b],
        positions_for(s, uuid).len() == s.filter(|l: Listener<C>| l.uuid == uuid).len(),
        forall|j: int|
            0 <= j < positions_for(s, uuid).len() ==> 0 <= #[trigger] positions_for(s, uuid)[j]
                < s.len() && s[positions_for(s, uuid)[j]].uuid == uuid,
        forall|i: int| 0 <= i < s.len() && s[i].uuid == uuid ==> positions_for(s, uuid).contains(i),
    decreases s.len(),
{
    reveal_with_fuel(Seq::filter, 1);
    if s.len() > 0 {
        let s0 = s.drop_last();
        lemma_positions_are_listeners_for(s0, uuid);
        let p0 = positions_for(s0, uuid);
        let p = positions_for(s, uuid);
        if s.last().uuid == uuid {
            assert(p == p0.push(s.len() - 1));
            assert forall|a: int, b: int| 0 <= a < b < p.len() implies #[trigger] p[a] < #[trigger] p[b] by {
                if b < p0.len() {
                    assert(p0[a] < p0[b]);
                } else {
                    assert(p0[a] < s0.len());
                }
            }
        } else {
            assert(p == p0);
        }
        assert forall|i: int| 0 <= i < s.len() && s[i].uuid == uuid implies positions_for(
            s,
            uuid,
        ).contains(i) by {
            if i < s.len() - 1 {
                assert(s0.len() == s.len() - 1);
                assert(s0[i] == s[i]);
                assert(p0.contains(i));
                let j: int = choose|j: int| 0 <= j < p0.len() && p0[j] == i;
                assert(positions_for(s, uuid) == p0 || positions_for(s, uuid) == p0.push(s.len() - 1));
                assert(positions_for(s, uuid)[j] == i);
            } else {
                assert(positions_for(s, uuid)[p0.len() as int] == i);
            }
        }
    }
}

/// The state of a connected device is taken exactly once: the first
/// `take_device` finds it, and after it nothing is stored under the address,
/// so a second one fails with `Error::NoDeviceConnected`.
pub proof fn lemma_device_taken_once<T>(s: Seq<(Seq<char>, T)>, k: Seq<char>)
    requires
        unique_keys(s),
        has_key(s, k),
    ensures
        lookup(s, k) is Some,
        lookup(after_remove(s, k), k) is None,
{
    crate::address_map::lemma_remove_then_lookup(s, k, k);
}

/// Connecting a device that was not connected and then taking it on
/// disconnect leaves the connected devices as they were.
pub proof fn lemma_connect_then_disconnect_restores<T>(s: Seq<(Seq<char>, T)>, k: Seq<char>, state: T)
    requires
        unique_keys(s),
        !has_key(s, k),
    ensures
        lookup(after_insert(s, k, state), k) == Some(state),
        after_remove(after_insert(s, k, state), k) == s,
{
    crate::address_map::lemma_insert_then_lookup(s, k, state, k);
    crate::address_map::lemma_insert_then_remove_restores(s, k, state);
}

/// `first_characteristic` finds the first characteristic with the UUID, and
/// finds none exactly when no characteristic has it.
pub proof fn lemma_first_characteristic_meaning<Ch>(s: Seq<CharacteristicEntry<Ch>>, uuid: u128)
    ensures
        first_characteristic(s, uuid) matches Some(i) ==> 0 <= i < s.len() && s[i].uuid == uuid
            && forall|j: int| 0 <= j < i ==> s[j].uuid != uuid,
        first_characteristic(s, uuid) is None <==> forall|j: int|
            0 <= j < s.len() ==> #[trigger] s[j].uuid != uuid,
{
    if exists|i: int| 0 <= i < s.len() && #[trigger] s[i].uuid == uuid {
        let w = choose|i: int| 0 <= i < s.len() && #[trigger] s[i].uuid == uuid;
        lemma_first_exists(s, uuid, w);
    }
}

proof fn lemma_first_exists<Ch>(s: Seq<CharacteristicEntry<Ch>>, uuid: u128, w: int)
    requires
        0 <= w < s.len(),
        s[w].uuid == uuid,
    ensures
        exists|i: int|
            0 <= i < s.len() && #[trigger] s[i].uuid == uuid && forall|j: int|
                0 <= j < i ==> s[j].uuid != uuid,
    decreases w,
{
    if exists|j: int| 0 <= j < w && #[trigger] s[j].uuid == uuid {
        let j = choose|j: int| 0 <= j < w && #[trigger] s[j].uuid == uuid;
        lemma_first_exists(s, uuid, j);
    } else {
        assert(forall|j: int| 0 <= j < w ==> s[j].uuid != uuid);
    }
}

/// Unsubscribing from `uuid` removes exactly the listeners a notification of
/// `uuid` reaches: what is left and what is reached together make up all
/// listeners.
pub proof fn lemma_unsubscribe_keeps_the_rest<C>(s: Seq<Listener<C>>, uuid: u128)
    ensures
        without_uuid(s, uuid).len() + positions_for(s, uuid).len() == s.len(),
    decreases s.len(),
{
    reveal_with_fuel(Seq::filter, 1);
    if s.len() > 0 {
        lemma_unsubscribe_keeps_the_rest(s.drop_last(), uuid);
    }
}

} // verus!
