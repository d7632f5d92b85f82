use vstd::prelude::*;
use crate::address_map::{AddressMap, has_key, lookup};
use crate::device::{CharacteristicEntry, DeviceState};
use crate::error::Error;

verus! {

/// How many times connecting is tried before the error is reported.
pub const CONNECT_ATTEMPTS: u32 = 3;

/// Milliseconds to wait before connecting again after a failed attempt.
pub const CONNECT_RETRY_DELAY_MS: u64 = 1000;

/// How many times the connection state is polled after a disconnect request.
pub const DISCONNECT_POLLS: u32 = 10;

/// Milliseconds to wait before each poll of the connection state.
pub const DISCONNECT_POLL_INTERVAL_MS: u64 = 100;

/// Seconds a Bluetooth command may take before it counts as timed out.
pub const COMMAND_TIMEOUT_SECS: u64 = 5;

/// The client works with the first adapter the system reports; without one it
/// fails with `Error::NoAdapters`.
pub fn first_adapter<A>(adapters: Vec<A>) -> (r: Result<A, Error>)
    ensures
        adapters@.len() > 0 ==> r == Ok::<A, Error>(adapters@[0]),
        adapters@.len() == 0 ==> r == Err::<A, Error>(Error::NoAdapters),
{
    let mut adapters = adapters;
    if adapters.len() == 0 {
        Err(Error::NoAdapters)
    } else {
        Ok(adapters.swap_remove(0))
    }
}

/// Connecting needs at least one discovered device; otherwise it fails with
/// `Error::NoDevicesDiscovered`.
pub fn require_discovered<P>(discovered: &AddressMap<P>) -> (r: Result<(), Error>)
    ensures
        discovered@.len() > 0 ==> r is Ok,
        discovered@.len() == 0 ==> r == Err::<(), Error>(Error::NoDevicesDiscovered),
{
    if discovered.is_empty() {
        Err(Error::NoDevicesDiscovered)
    } else {
        Ok(())
    }
}

/// Connecting to a device that is already connected fails with
/// `Error::AlreadyConnected`.
pub fn require_not_connected<T>(connected: &AddressMap<T>, address: &str) -> (r: Result<(), Error>)
    ensures
        has_key(connected@, address@) ==> r == Err::<(), Error>(Error::AlreadyConnected),
        !has_key(connected@, address@) ==> r is Ok,
{
    if connected.contains_key(address) {
        Err(Error::AlreadyConnected)
    } else {
        Ok(())
    }
}

/// Whether a device is disconnected again once its services are discovered:
/// exactly when it was connected only for the discovery.
pub fn disconnect_after_discovery(was_connected: bool) -> (r: bool)
    ensures
        r == !was_connected,
{
    !was_connected
}

/// The discovered peripheral with the given address, or
/// `Error::UnknownPeripheral` carrying the address.
pub fn discovered_peripheral<'a, P>(discovered: &'a AddressMap<P>, address: &str) -> (r: Result<
    &'a P,
    Error,
>)
    requires
        discovered.wf(),
    ensures
        match lookup(discovered@, address@) {
            Some(p) => r == Ok::<&P, Error>(&p),
            None => r matches Err(Error::UnknownPeripheral(a)) && a@ == address@,
        },
{
    match discovered.get(address) {
        Some(p) => Ok(p),
        None => Err(Error::UnknownPeripheral(address.to_owned())),
    }
}

/// The peripheral whose services are discovered: that of the connected device
/// with the address, otherwise that of the discovered device with it;
/// `Error::UnknownPeripheral` carrying the address when neither has it.
pub fn discovery_target<'a, P, Ch, C, H, D>(
    connected: &'a AddressMap<DeviceState<P, Ch, C, H, D>>,
    discovered: &'a AddressMap<P>,
    address: &str,
) -> (r: Result<&'a P, Error>)
    requires
        connected.wf(),
        discovered.wf(),
    ensures
        match lookup(connected@, address@) {
            Some(s) => r == Ok::<&P, Error>(&s.peripheral),
            None => match lookup(discovered@, address@) {
                Some(p) => r == Ok::<&P, Error>(&p),
                None => r matches Err(Error::UnknownPeripheral(a)) && a@ == address@,
            },
        },
{
    match connected.get(address) {
        Some(s) => Ok(&s.peripheral),
        None => discovered_peripheral(discovered, address),
    }
}

/// What to do after an attempt to connect.
#[derive(Debug, PartialEq, Eq)]
pub enum ConnectStep {
    /// The device is connected.
    Connected,
    /// Wait `CONNECT_RETRY_DELAY_MS` and try again.
    RetryAfterDelay,
    /// Stop and report the error of the last attempt.
    GiveUp(Error),
}

/// The decision after attempt number `attempt` (counted from 0).
pub open spec fn connect_step(attempt: int, outcome: Result<(), Error>) -> ConnectStep {
    match outcome {
        Ok(()) => ConnectStep::Connected,
        Err(e) => if attempt + 1 < CONNECT_ATTEMPTS {
            ConnectStep::RetryAfterDelay
        } else {
            ConnectStep::GiveUp(e)
        },
    }
}

/// Decides, after attempt number `attempt` (counted from 0) ended with
/// `outcome`, whether the device is connected, connecting is tried again, or
/// the error is reported.
pub fn after_connect_attempt(attempt: u32, outcome: Result<(), Error>) -> (step: ConnectStep)
    requires
        attempt < CONNECT_ATTEMPTS,
    ensures
        step == connect_step(attempt as int, outcome),
{
    match outcome {
        Ok(()) => ConnectStep::Connected,
        Err(e) => if attempt + 1 < CONNECT_ATTEMPTS {
            ConnectStep::RetryAfterDelay
        } else {
            ConnectStep::GiveUp(e)
        },
    }
}

/// The number of attempts made from attempt `attempt` on, when attempt `k`
/// ends with `outcomes[k]`.
pub open spec fn attempts_made(outcomes: Seq<Result<(), Error>>, attempt: nat) -> nat
    decreases CONNECT_ATTEMPTS - attempt,
{
    if attempt >= CONNECT_ATTEMPTS || attempt >= outcomes.len() {
        attempt
    } else {
        match connect_step(attempt as int, outcomes[attempt as int]) {
            ConnectStep::RetryAfterDelay => attempts_made(outcomes, attempt + 1),
            _ => attempt + 1,
        }
    }
}

/// Connecting is tried at most `CONNECT_ATTEMPTS` times: it stops at the
/// first success, and tries all attempts only when the earlier ones failed.
pub proof fn lemma_connect_attempts_bounded(outcomes: Seq<Result<(), Error>>)
    requires
        outcomes.len() >= CONNECT_ATTEMPTS,
    ensures
        1 <= attempts_made(outcomes, 0) <= CONNECT_ATTEMPTS,
        forall|k: int| 0 <= k < attempts_made(outcomes, 0) - 1 ==> outcomes[k] is Err,
        (forall|k: int| 0 <= k < CONNECT_ATTEMPTS ==> outcomes[k] is Err) ==> attempts_made(
            outcomes,
            0,
        ) == CONNECT_ATTEMPTS,
{
    assert(attempts_made(outcomes, 2) == 3);
    assert(attempts_made(outcomes, 1) == if outcomes[1] is Ok { 2nat } else { 3nat });
    assert(attempts_made(outcomes, 0) == if outcomes[0] is Ok {
        1nat
    } else if outcomes[1] is Ok {
        2nat
    } else {
        3nat
    });
}

/// After connecting, the device must report a connection; otherwise
/// `Error::ConnectionFailed`.
pub fn connection_verified(is_connected: bool) -> (r: Result<(), Error>)
    ensures
        is_connected ==> r is Ok,
        !is_connected ==> r == Err::<(), Error>(Error::ConnectionFailed),
{
    if is_connected {
        Ok(())
    } else {
        Err(Error::ConnectionFailed)
    }
}

/// Disconnecting needs a device that reports a connection; otherwise
/// `Error::NoDeviceConnected`.
pub fn require_link(is_connected: bool) -> (r: Result<(), Error>)
    ensures
        is_connected ==> r is Ok,
        !is_connected ==> r == Err::<(), Error>(Error::NoDeviceConnected),
{
    if is_connected {
        Ok(())
    } else {
        Err(Error::NoDeviceConnected)
    }
}

/// Whether to wait and poll again after `polls_done` polls of the connection
/// state, the last of which saw `still_connected`.
pub fn keep_polling(polls_done: u32, still_connected: bool) -> (r: bool)
    ensures
        r == (still_connected && polls_done < DISCONNECT_POLLS),
{
    still_connected && polls_done < DISCONNECT_POLLS
}

/// A device that still reports a connection after the polls has not
/// disconnected: `Error::DisconnectFailed`.
pub fn disconnect_verified(still_connected: bool) -> (r: Result<(), Error>)
    ensures
        !still_connected ==> r is Ok,
        still_connected ==> r == Err::<(), Error>(Error::DisconnectFailed),
{
    if still_connected {
        Err(Error::DisconnectFailed)
    } else {
        Ok(())
    }
}

/// The last error among the outcomes, or success when every outcome is a
/// success.
pub open spec fn last_error(s: Seq<Result<(), Error>>) -> Result<(), Error>
    decreases s.len(),
{
    if s.len() == 0 {
        Ok(())
    } else {
        match s.last() {
            Err(e) => Err(e),
            Ok(()) => last_error(s.drop_last()),
        }
    }
}

/// Combines the outcomes of disconnecting several devices: the last error,
/// if any.
pub fn combine_outcomes(outcomes: Vec<Result<(), Error>>) -> (r: Result<(), Error>)
    ensures
        r == last_error(outcomes@),
{
    let mut rest = outcomes;
    while rest.len() > 0
        invariant
            last_error(outcomes@) == last_error(rest@),
        decreases rest.len(),
    {
        let ghost before = rest@;
        let o = rest.pop().unwrap();
        assert(before.drop_last() =~= rest@);
        match o {
            Err(e) => {
                return Err(e);
            },
            Ok(()) => {},
        }
    }
    Ok(())
}

/// Combining outcomes succeeds exactly when every outcome is a success.
pub proof fn lemma_combine_ok_iff_all_ok(s: Seq<Result<(), Error>>)
    ensures
        last_error(s) is Ok <==> forall|i: int| 0 <= i < s.len() ==> #[trigger] s[i] is Ok,
    decreases s.len(),
{
    if s.len() > 0 {
        lemma_combine_ok_iff_all_ok(s.drop_last());
        if last_error(s) is Ok {
            assert forall|i: int| 0 <= i < s.len() implies #[trigger] s[i] is Ok by {
                if i < s.len() - 1 {
                    assert(s.drop_last()[i] == s[i]);
                }
            }
        } else {
            if s.last() is Ok {
                let i: int = choose|i: int| 0 <= i < s.drop_last().len() && !(#[trigger] s.drop_last()[i] is Ok);
                assert(s[i] == s.drop_last()[i]);
            }
        }
    }
}

/// The result of a Bluetooth command run with a time limit: `None` when the
/// limit passed (`Error::Timeout` naming the command), otherwise the
/// command's own result, its error message becoming `Error::Btleplug`.
pub fn timed_outcome<T>(outcome: Option<Result<T, String>>, command: &str) -> (r: Result<T, Error>)
    ensures
        match outcome {
            None => r matches Err(Error::Timeout(c)) && c@ == command@,
            Some(Ok(v)) => r == Ok::<T, Error>(v),
            Some(Err(m)) => r == Err::<T, Error>(Error::Btleplug(m)),
        },
{
    match outcome {
        None => Err(Error::Timeout(command.to_owned())),
        Some(Ok(v)) => Ok(v),
        Some(Err(m)) => Err(Error::Btleplug(m)),
    }
}

/// The characteristics of the discovered services, service by service.
pub open spec fn all_characteristics<Ch>(services: Seq<Vec<CharacteristicEntry<Ch>>>) -> Seq<
    CharacteristicEntry<Ch>,
> {
    services.map_values(|v: Vec<CharacteristicEntry<Ch>>| v@).flatten()
}

/// Gathers the characteristics of all services of a device into one list,
/// service by service and in each service in its order.
pub fn collect_characteristics<Ch>(services: Vec<Vec<CharacteristicEntry<Ch>>>) -> (r: Vec<
    CharacteristicEntry<Ch>,
>)
    ensures
        r@ == all_characteristics(services@),
{
    let mut rest = services;
    let mut r: Vec<CharacteristicEntry<Ch>> = Vec::new();
    while rest.len() > 0
        invariant
            all_characteristics(services@) == r@ + all_characteristics(rest@),
        decreases rest.len(),
    {
        let ghost before = rest@;
        let mut s = rest.remove(0);
        assert(before.map_values(|v: Vec<CharacteristicEntry<Ch>>| v@).drop_first() =~= rest@.map_values(
            |v: Vec<CharacteristicEntry<Ch>>| v@,
        ));
        assert(all_characteristics(before) == s@ + all_characteristics(rest@));
        r.append(&mut s);
        assert(all_characteristics(services@) =~= r@ + all_characteristics(rest@));
    }
    assert(all_characteristics(rest@) =~= Seq::<CharacteristicEntry<Ch>>::empty());
    assert(r@ + all_characteristics(rest@) =~= r@);
    r
}

/// A successful attempt always means connected; a failed one is retried
/// while attempts remain, and the last failure is reported with its own
/// error.
pub proof fn lemma_connect_step_meaning(attempt: int, e: Error)
    requires
        0 <= attempt < CONNECT_ATTEMPTS,
    ensures
        connect_step(attempt, Ok(())) == ConnectStep::Connected,
        attempt + 1 < CONNECT_ATTEMPTS ==> connect_step(attempt, Err(e))
            == ConnectStep::RetryAfterDelay,
        attempt + 1 == CONNECT_ATTEMPTS ==> connect_step(attempt, Err(e)) == ConnectStep::GiveUp(e),
{
}

/// The combined outcome of several disconnects is an error seen among them,
/// with only successes after it; it is a success exactly when all are.
pub proof fn lemma_last_error_is_the_last_one(s: Seq<Result<(), Error>>)
    ensures
        last_error(s) matches Err(e) ==> exists|i: int|
            0 <= i < s.len() && s[i] == Err::<(), Error>(e) && forall|j: int|
                i < j < s.len() ==> #[trigger] s[j] is Ok,
        last_error(s) is Ok ==> forall|i: int| 0 <= i < s.len() ==> #[trigger] s[i] is Ok,
    decreases s.len(),
{
    lemma_combine_ok_iff_all_ok(s);
    if s.len() > 0 {
        let s0 = s.drop_last();
        lemma_last_error_is_the_last_one(s0);
        if let Err(e) = last_error(s) {
            if s.last() is Ok {
                let i = choose|i: int|
                    0 <= i < s0.len() && s0[i] == Err::<(), Error>(e) && forall|j: int|
                        i < j < s0.len() ==> #[trigger] s0[j] is Ok;
                assert(s[i] == s0[i]);
                assert forall|j: int| i < j < s.len() implies #[trigger] s[j] is Ok by {
                    if j < s.len() - 1 {
                        assert(s[j] == s0[j]);
                    }
                }
            } else {
                assert(s[s.len() - 1] == Err::<(), Error>(e));
            }
        }
    }
}

/// A device without services has no characteristics, and discovering one
/// more service appends its characteristics, in their order, after those of
/// the services before it.
pub proof fn lemma_characteristics_service_by_service<Ch>(
    services: Seq<Vec<CharacteristicEntry<Ch>>>,
    more: Vec<CharacteristicEntry<Ch>>,
)
    ensures
        all_characteristics(Seq::<Vec<CharacteristicEntry<Ch>>>::empty()) == Seq::<
            CharacteristicEntry<Ch>,
        >::empty(),
        all_characteristics(services.push(more)) == all_characteristics(services) + more@,
{
    let f = |v: Vec<CharacteristicEntry<Ch>>| v@;
    assert(Seq::<Vec<CharacteristicEntry<Ch>>>::empty().map_values(f) =~= Seq::<
        Seq<CharacteristicEntry<Ch>>,
    >::empty());
    assert(services.push(more).map_values(f) =~= services.map_values(f).push(more@));
    services.map_values(f).lemma_flatten_push(more@);
}

} // verus!
