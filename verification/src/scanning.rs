use vstd::prelude::*;
use crate::address_map::{AddressMap, after_insert};
use crate::error::Error;
use crate::filter::{passes_filter, should_forward};
use crate::models::{PeripheralProperties, ScanFilter, opt_properties_view};

verus! {

/// The listeners of scan and connection changes, and the running scan tasks.
/// `CT`, `ST` and `DT` are the senders of connection updates, of scanning
/// updates and of discovered devices; `T` is a task handle.
pub struct HandlerState<CT, ST, DT, T> {
    pub connection_update_channels: Vec<CT>,
    pub scan_update_channels: Vec<ST>,
    pub device_scan_channels: Vec<DT>,
    pub scan_task: Option<T>,
    pub scan_stream_task: Option<T>,
}

impl<CT, ST, DT, T> HandlerState<CT, ST, DT, T> {
    /// No listener and no task.
    pub fn new() -> (s: Self)
        ensures
            s.connection_update_channels@ == Seq::<CT>::empty(),
            s.scan_update_channels@ == Seq::<ST>::empty(),
            s.device_scan_channels@ == Seq::<DT>::empty(),
            s.scan_task is None,
            s.scan_stream_task is None,
    {
        HandlerState {
            connection_update_channels: Vec::new(),
            scan_update_channels: Vec::new(),
            device_scan_channels: Vec::new(),
            scan_task: None,
            scan_stream_task: None,
        }
    }

    /// Adds a receiver of scanning-state changes.
    pub fn add_scan_update_channel(&mut self, tx: ST)
        ensures
            final(self).scan_update_channels@ == old(self).scan_update_channels@.push(tx),
            final(self).connection_update_channels == old(self).connection_update_channels,
            final(self).device_scan_channels == old(self).device_scan_channels,
            final(self).scan_task == old(self).scan_task,
            final(self).scan_stream_task == old(self).scan_stream_task,
    {
        self.scan_update_channels.push(tx);
    }

    /// Adds a receiver of connection changes.
    pub fn add_connection_update_channel(&mut self, tx: CT)
        ensures
            final(self).connection_update_channels@ == old(self).connection_update_channels@.push(tx),
            final(self).scan_update_channels == old(self).scan_update_channels,
            final(self).device_scan_channels == old(self).device_scan_channels,
            final(self).scan_task == old(self).scan_task,
            final(self).scan_stream_task == old(self).scan_stream_task,
    {
        self.connection_update_channels.push(tx);
    }

    /// Adds a receiver of the devices found by a continuous scan.
    pub fn add_device_scan_channel(&mut self, tx: DT)
        ensures
            final(self).device_scan_channels@ == old(self).device_scan_channels@.push(tx),
            final(self).connection_update_channels == old(self).connection_update_channels,
            final(self).scan_update_channels == old(self).scan_update_channels,
            final(self).scan_task == old(self).scan_task,
            final(self).scan_stream_task == old(self).scan_stream_task,
    {
        self.device_scan_channels.push(tx);
    }
}

/// The task is present and `is_finished` answered that it is not finished.
pub open spec fn seen_running<T, F: Fn(&T) -> bool>(task: Option<T>, is_finished: F) -> bool {
    task is Some && call_ensures(is_finished, (&task->0,), false)
}

/// The task is absent, or `is_finished` answered that it is finished.
pub open spec fn seen_idle<T, F: Fn(&T) -> bool>(task: Option<T>, is_finished: F) -> bool {
    task is None || call_ensures(is_finished, (&task->0,), true)
}

/// Whether a task is present and `is_finished` reports it unfinished.
pub fn task_running<T, F: Fn(&T) -> bool>(task: &Option<T>, is_finished: F) -> (r: bool)
    requires
        forall|t: &T| #[trigger] is_finished.requires((t,)),
    ensures
        r ==> seen_running(*task, is_finished),
        !r ==> seen_idle(*task, is_finished),
{
    match task {
        Some(t) => !is_finished(t),
        None => false,
    }
}

impl<CT, ST, DT, T> HandlerState<CT, ST, DT, T> {
    /// Whether the adapter is scanning: a timed scan or a continuous scan is
    /// running.
    pub fn scanning<F: Fn(&T) -> bool>(&self, is_finished: F) -> (r: bool)
        requires
            forall|t: &T| #[trigger] is_finished.requires((t,)),
        ensures
            r ==> seen_running(self.scan_task, is_finished) || seen_running(
                self.scan_stream_task,
                is_finished,
            ),
            !r ==> seen_idle(self.scan_task, is_finished) && seen_idle(
                self.scan_stream_task,
                is_finished,
            ),
    {
        let timed = match &self.scan_task {
            Some(t) => !is_finished(t),
            None => false,
        };
        if timed {
            return true;
        }
        match &self.scan_stream_task {
            Some(t) => !is_finished(t),
            None => false,
        }
    }

    /// A scan of either kind may start only when no scan is running;
    /// otherwise `Error::ScanAlreadyRunning`.
    pub fn ensure_not_scanning<F: Fn(&T) -> bool>(&self, is_finished: F) -> (r: Result<(), Error>)
        requires
            forall|t: &T| #[trigger] is_finished.requires((t,)),
        ensures
            r is Err ==> r == Err::<(), Error>(Error::ScanAlreadyRunning) && (seen_running(
                self.scan_task,
                is_finished,
            ) || seen_running(self.scan_stream_task, is_finished)),
            r is Ok ==> seen_idle(self.scan_task, is_finished) && seen_idle(
                self.scan_stream_task,
                is_finished,
            ),
    {
        if self.scanning(is_finished) {
            Err(Error::ScanAlreadyRunning)
        } else {
            Ok(())
        }
    }
}

/// Takes the scan task out; hands it back only when it is still running, so
/// that it can be aborted. A finished task is dropped.
pub fn take_task_to_abort<T, F: Fn(&T) -> bool>(task: &mut Option<T>, is_finished: F) -> (r: Option<T>)
    requires
        forall|t: &T| #[trigger] is_finished.requires((t,)),
    ensures
        *final(task) is None,
        r is Some ==> *old(task) == r && seen_running(r, is_finished),
        r is None ==> seen_idle(*old(task), is_finished),
{
    match task.take() {
        Some(t) => {
            if is_finished(&t) {
                None
            } else {
                Some(t)
            }
        },
        None => None,
    }
}

/// The successful values among the results, in their order.
pub open spec fn successes<T, E>(s: Seq<Result<T, E>>) -> Seq<T>
    decreases s.len(),
{
    if s.len() == 0 {
        seq![]
    } else {
        match s.last() {
            Ok(v) => successes(s.drop_last()).push(v),
            Err(_) => successes(s.drop_last()),
        }
    }
}

/// Keeps the devices that could be described and drops the failures, keeping
/// the order.
pub fn keep_successes<T, E>(results: Vec<Result<T, E>>) -> (r: Vec<T>)
    ensures
        r@ == successes(results@),
{
    let mut rest = results;
    let mut rev: Vec<T> = Vec::new();
    let ghost all = rest@;
    while rest.len() > 0
        invariant
            successes(all) == successes(rest@) + rev@.reverse(),
        decreases rest.len(),
    {
        let ghost before = rest@;
        let x = rest.pop().unwrap();
        assert(before.drop_last() =~= rest@);
        match x {
            Ok(v) => {
                let ghost prev = rev@;
                rev.push(v);
                assert(rev@.reverse() =~= seq![v] + prev.reverse());
                assert(successes(before) == successes(rest@).push(v));
                assert(successes(all) =~= successes(rest@) + rev@.reverse());
            },
            Err(_) => {},
        }
    }
    let mut r: Vec<T> = Vec::new();
    let ghost target = rev@.reverse();
    assert(successes(all) =~= target);
    while rev.len() > 0
        invariant
            target == r@ + rev@.reverse(),
        decreases rev.len(),
    {
        let ghost before = rev@;
        let v = rev.pop().unwrap();
        assert(before.reverse() =~= seq![v] + rev@.reverse());
        r.push(v);
        assert(target =~= r@ + rev@.reverse());
    }
    assert(target =~= r@);
    r
}

impl<CT, ST, DT, T> HandlerState<CT, ST, DT, T> {
    /// Stops the timed scan. A running timed scan's task is handed back to be
    /// aborted, after which the adapter stops scanning. When only a
    /// continuous scan runs it is left alone and nothing is handed back. When
    /// no scan runs the result is `Error::NoScanRunning`. A finished timed
    /// task is dropped; the continuous scan and the channels never change.
    pub fn stop_timed<F: Fn(&T) -> bool>(&mut self, is_finished: F) -> (r: Result<Option<T>, Error>)
        requires
            forall|t: &T| #[trigger] is_finished.requires((t,)),
        ensures
            final(self).scan_task is None,
            final(self).scan_stream_task == old(self).scan_stream_task,
            final(self).connection_update_channels == old(self).connection_update_channels,
            final(self).scan_update_channels == old(self).scan_update_channels,
            final(self).device_scan_channels == old(self).device_scan_channels,
            match r {
                Ok(Some(t)) => old(self).scan_task == Some(t) && seen_running(Some(t), is_finished),
                Ok(None) => seen_idle(old(self).scan_task, is_finished) && seen_running(
                    old(self).scan_stream_task,
                    is_finished,
                ),
                Err(e) => e == Error::NoScanRunning && seen_idle(old(self).scan_task, is_finished)
                    && seen_idle(old(self).scan_stream_task, is_finished),
            },
    {
        match self.scan_task.take() {
            Some(t) => {
                if !is_finished(&t) {
                    return Ok(Some(t));
                }
            },
            None => {},
        }
        let stream_running = match &self.scan_stream_task {
            Some(t) => !is_finished(t),
            None => false,
        };
        if stream_running {
            Ok(None)
        } else {
            Err(Error::NoScanRunning)
        }
    }

    /// Stops the continuous scan: its task is taken out and handed back when
    /// still running, so that it can be aborted. The timed scan and the
    /// channels never change.
    pub fn stop_stream<F: Fn(&T) -> bool>(&mut self, is_finished: F) -> (r: Option<T>)
        requires
            forall|t: &T| #[trigger] is_finished.requires((t,)),
        ensures
            final(self).scan_stream_task is None,
            final(self).scan_task == old(self).scan_task,
            final(self).connection_update_channels == old(self).connection_update_channels,
            final(self).scan_update_channels == old(self).scan_update_channels,
            final(self).device_scan_channels == old(self).device_scan_channels,
            r is Some ==> old(self).scan_stream_task == r && seen_running(r, is_finished),
            r is None ==> seen_idle(old(self).scan_stream_task, is_finished),
    {
        take_task_to_abort(&mut self.scan_stream_task, is_finished)
    }
}

/// Once the continuous scan is stopped, a new scan can be refused only
/// because of a running timed scan: the stop leaves no stream behind and does
/// not touch the timed scan.
pub proof fn lemma_stopped_stream_frees_the_stream<CT, ST, DT, T, F: Fn(&T) -> bool>(
    before: HandlerState<CT, ST, DT, T>,
    after: HandlerState<CT, ST, DT, T>,
    is_finished: F,
)
    requires
        after.scan_stream_task is None,
        after.scan_task == before.scan_task,
    ensures
        seen_idle(after.scan_stream_task, is_finished),
        (seen_running(after.scan_task, is_finished) || seen_running(
            after.scan_stream_task,
            is_finished,
        )) ==> seen_running(before.scan_task, is_finished),
{
}

/// The result of a timed scan: the devices its task sent, or
/// `Error::ScanFailed` when the task ended without sending them (it was
/// stopped or failed).
pub fn timed_scan_result<D>(received: Option<Vec<D>>) -> (r: Result<Vec<D>, Error>)
    ensures
        match received {
            Some(d) => r == Ok::<Vec<D>, Error>(d),
            None => r == Err::<Vec<D>, Error>(Error::ScanFailed),
        },
{
    match received {
        Some(d) => Ok(d),
        None => Err(Error::ScanFailed),
    }
}

/// Records a device found by a continuous scan under its address and decides
/// whether it is sent to the scan channels: always without a filter,
/// otherwise when the filter keeps it.
pub fn record_stream_discovery<P>(
    discovered: &mut AddressMap<P>,
    address: String,
    peripheral: P,
    filter: &Option<ScanFilter>,
    props: &Option<PeripheralProperties>,
) -> (forward: bool)
    requires
        old(discovered).wf(),
    ensures
        final(discovered).wf(),
        final(discovered)@ == after_insert(old(discovered)@, address@, peripheral),
        forward == match filter {
            None => true,
            Some(f) => passes_filter(opt_properties_view(*props), f@),
        },
{
    discovered.insert(address, peripheral);
    should_forward(filter, props)
}

/// The devices kept are exactly the successful results, in their order:
/// every success is kept once and every failure is dropped.
pub proof fn lemma_successes_are_the_ok_values<T, E>(s: Seq<Result<T, E>>)
    ensures
        successes(s) == s.filter(|r: Result<T, E>| r is Ok).map_values(|r: Result<T, E>| r->Ok_0),
        successes(s).len() == s.filter(|r: Result<T, E>| r is Ok).len(),
    decreases s.len(),
{
    reveal_with_fuel(Seq::filter, 1);
    let pred = |r: Result<T, E>| r is Ok;
    if s.len() == 0 {
        assert(s.filter(pred) =~= Seq::<Result<T, E>>::empty());
        assert(successes(s) =~= s.filter(pred).map_values(|r: Result<T, E>| r->Ok_0));
    } else {
        lemma_successes_are_the_ok_values(s.drop_last());
        let f0 = s.drop_last().filter(pred);
        if s.last() is Ok {
            assert(s.filter(pred) == f0.push(s.last()));
        } else {
            assert(s.filter(pred) == f0);
        }
        assert(successes(s) =~= s.filter(pred).map_values(|r: Result<T, E>| r->Ok_0));
    }
}

/// An absent task is idle and never running; a present task counts as
/// running exactly when `is_finished` answered no for it, and as idle exactly
/// when it answered yes.
pub proof fn lemma_seen_meaning<T, F: Fn(&T) -> bool>(task: Option<T>, is_finished: F)
    ensures
        task is None ==> seen_idle(task, is_finished) && !seen_running(task, is_finished),
        task matches Some(t) ==> (seen_running(task, is_finished) <==> call_ensures(
            is_finished,
            (&t,),
            false,
        )) && (seen_idle(task, is_finished) <==> call_ensures(is_finished, (&t,), true)),
{
}

} // verus!
