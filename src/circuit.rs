//! The simulation kernel.
//!
//! Every device runs as an actor behind a pair of FIFO channels: commands go
//! to it, events come back. The circuit steps each worker on the command it
//! sends, so the order in which events are seen is the order of a threaded
//! run (each channel has one producer and one consumer, and each device is
//! deterministic). Out-of-band data responses wait in the device's event
//! channel until the host reads them.
use crate::device::Device;
use crate::device::quiet;
use crate::device::answers_tick;
use crate::device::on_own_pin;
use crate::net::all_points;
use crate::net::entries_ok;
use crate::net::fanout_of;
use crate::net::fanout_over;
use crate::net::lemma_fanout_points;
use crate::net::net_fanout;
use crate::net::peers_among;
use crate::CircuitToDeviceMessage;
use crate::message::following_tick;
use crate::DeviceData;
use crate::DeviceToCircuitMessage;
use crate::Net;
use crate::PinDirection;
use vstd::prelude::*;

verus! {

/// A fault reported to the host by a tick or a data exchange.
#[derive(Clone, Copy, Debug, PartialEq, Eq, Structural)]
pub enum CircuitError {
    /// The requested tick is not after the last one.
    TickNotIncreasing { tick: u64, last_tick: u64 },
    /// A data response was still unread on the device's channel when a tick
    /// began.
    UnexpectedData { device: usize },
    /// The device's worker has stopped.
    WorkerLost { device: usize },
    /// The device sent nothing in answer to a data request.
    NoResponse { device: usize },
    /// The device answered a data request with something other than data.
    UnexpectedMessage { device: usize },
}

/// The circuit's record of one device's worker.
#[derive(Debug)]
struct Worker<D> {
    device: D,
    /// Events sent by the device and not yet read.
    events: Vec<DeviceToCircuitMessage>,
    running: bool,
    /// The device's latest `NextTick` reply.
    next_tick: u64,
}

/// Devices wired by nets, advanced one tick at a time.
#[derive(Debug)]
pub struct Circuit<D> {
    workers: Vec<Worker<D>>,
    last_tick: u64,
    /// `fanout[d][p]`: the points that share a net with pin `p` of device `d`.
    fanout: Vec<Vec<Vec<(usize, usize)>>>,
}

/// The smallest of the first `k` reported ticks, `u64::MAX` when `k` is 0.
pub open spec fn earliest_of(s: Seq<u64>, k: int) -> u64
    decreases k,
{
    if k <= 0 {
        u64::MAX
    } else {
        let rest = earliest_of(s, k - 1);
        if s[k - 1] < rest {
            s[k - 1]
        } else {
            rest
        }
    }
}

proof fn lemma_earliest_all_max(s: Seq<u64>, k: int)
    requires
        k <= s.len(),
        forall|j: int| 0 <= j < s.len() ==> s[j] == u64::MAX,
    ensures
        earliest_of(s, k) == u64::MAX,
    decreases k,
{
    if k > 0 {
        lemma_earliest_all_max(s, k - 1);
    }
}

/// The command that carries an output change to one pin of a peer.
pub open spec fn set_pin_command(tick: u64, target: (usize, usize), value: u32) -> CircuitToDeviceMessage {
    CircuitToDeviceMessage::SetPin { tick, pin: target.1, value, last: true }
}

/// The devices after each of `targets`, in order, was handed one
/// `SetPin { tick, pin, value, last: true }` command.
pub open spec fn after_deliveries<D: Device>(
    devices: Seq<D>,
    targets: Seq<(usize, usize)>,
    tick: u64,
    value: u32,
) -> Seq<D>
    decreases targets.len(),
{
    if targets.len() == 0 {
        devices
    } else {
        let prev = after_deliveries(devices, targets.drop_last(), tick, value);
        let t = targets.last();
        if (t.0 as int) < prev.len() {
            prev.update(t.0 as int, prev[t.0 as int].after(set_pin_command(tick, t, value)))
        } else {
            prev
        }
    }
}

/// Device `d` is the target of one of `targets`.
pub open spec fn targeted(targets: Seq<(usize, usize)>, d: int) -> bool {
    exists|k: int| 0 <= k < targets.len() && #[trigger] targets[k].0 == d
}

/// The part of a circuit that a tick changes: the devices' states, their
/// reported next ticks, and which devices wait to be polled again.
pub type SimState<D> = (Seq<D>, Seq<u64>, Seq<bool>);

/// A fanout table: by device, by pin, the peer points.
pub type FanoutTable = Seq<Seq<Seq<(usize, usize)>>>;

/// `s` once every entry of `row` got the change `value` at `tick`: each
/// target device handled the command and asked to be polled at the
/// following tick.
pub open spec fn delivered_to<D: Device>(row: Seq<(usize, usize)>, s: SimState<D>, tick: u64, value: u32) -> SimState<D> {
    (
        after_deliveries(s.0, row, tick, value),
        Seq::new(s.1.len(), |j: int| if targeted(row, j) { following_tick(tick) } else { s.1[j] }),
        Seq::new(s.2.len(), |j: int| s.2[j] || targeted(row, j)),
    )
}

/// `s` once the circuit handled event `ev` of device `i` while draining
/// it: an output change goes to the fanout of its pin (a pin the device
/// has, by the device contract), a `NextTick` reply is recorded, and an
/// input announcement is not propagated.
pub open spec fn drain_event<D: Device>(fan: FanoutTable, s: SimState<D>, i: int, ev: DeviceToCircuitMessage, tick: u64) -> SimState<D> {
    match ev {
        DeviceToCircuitMessage::SetPin { pin, value, direction } => {
            if direction == PinDirection::Output {
                delivered_to(fan[i][pin as int], s, tick, value)
            } else {
                s
            }
        },
        DeviceToCircuitMessage::NextTick { tick: reply } => (s.0, s.1.update(i, reply), s.2),
        DeviceToCircuitMessage::Data { .. } => s,
    }
}

/// `s` once the events `out` of device `i` were drained in order.
pub open spec fn drained<D: Device>(fan: FanoutTable, s: SimState<D>, i: int, out: Seq<DeviceToCircuitMessage>, tick: u64) -> SimState<D>
    decreases out.len(),
{
    if out.len() == 0 {
        s
    } else {
        drain_event(fan, drained(fan, s, i, out.drop_last(), tick), i, out.last(), tick)
    }
}

/// `s` once device `i` was sent `NextTick { tick }` and drained.
pub open spec fn polled<D: Device>(fan: FanoutTable, s: SimState<D>, i: int, tick: u64) -> SimState<D> {
    let msg = CircuitToDeviceMessage::NextTick { tick };
    let device = s.0[i];
    drained(fan, (s.0.update(i, device.after(msg)), s.1, s.2.update(i, false)), i, device.emits(msg), tick)
}

/// `s` once the first `k` devices, those marked in `pending`, were polled in
/// index order.
pub open spec fn round_upto<D: Device>(fan: FanoutTable, s: SimState<D>, pending: Seq<bool>, k: int, tick: u64) -> SimState<D>
    decreases k,
{
    if k <= 0 {
        s
    } else {
        let prev = round_upto(fan, s, pending, k - 1, tick);
        if pending[k - 1] {
            polled(fan, prev, k - 1, tick)
        } else {
            prev
        }
    }
}

/// The devices and reported ticks at the end of a tick, from round `round`
/// on: while some device is pending and fewer rounds than devices ran, the
/// pending devices are polled again.
pub open spec fn rounds_from<D: Device>(
    fan: FanoutTable,
    n: int,
    devices: Seq<D>,
    schedule: Seq<u64>,
    pending: Seq<bool>,
    round: int,
    tick: u64,
) -> (Seq<D>, Seq<u64>)
    decreases n - round,
{
    if round >= n || !(exists|j: int| 0 <= j < pending.len() && #[trigger] pending[j]) {
        (devices, schedule)
    } else {
        let next = round_upto(
            fan,
            (devices, schedule, Seq::new(n as nat, |j: int| false)),
            pending,
            n,
            tick,
        );
        rounds_from(fan, n, next.0, next.1, next.2, round + 1, tick)
    }
}

/// A device is a target of the first `k + 1` entries exactly when it is one
/// of the first `k` or of entry `k`.
proof fn lemma_targeted_take(row: Seq<(usize, usize)>, k: int, j: int)
    requires
        0 <= k < row.len(),
    ensures
        targeted(row.take(k + 1), j) == (targeted(row.take(k), j) || row[k].0 == j),
{
    let next = row.take(k + 1);
    if targeted(row.take(k), j) {
        let w = choose|w: int| 0 <= w < k && #[trigger] row.take(k)[w].0 == j;
        assert(next[w].0 == j);
    }
    if row[k].0 == j {
        assert(next[k].0 == j);
    }
    if targeted(next, j) && row[k].0 != j {
        let w = choose|w: int| 0 <= w < k + 1 && #[trigger] next[w].0 == j;
        assert(row.take(k)[w].0 == j);
    }
}

/// The points that fit a fanout table of these dimensions.
spec fn fits(fanout: Seq<Vec<Vec<(usize, usize)>>>) -> spec_fn((usize, usize)) -> bool {
    |x: (usize, usize)| (x.0 as int) < fanout.len() && (x.1 as int) < fanout[x.0 as int]@.len()
}

impl<D: Device> Circuit<D> {
    /// The number of devices.
    pub closed spec fn len(&self) -> nat {
        self.workers@.len()
    }

    /// The state of device `d`.
    pub closed spec fn device(&self, d: int) -> D {
        self.workers[d].device
    }

    /// Whether the worker of device `d` still runs.
    pub closed spec fn running(&self, d: int) -> bool {
        self.workers[d].running
    }

    /// The events of device `d` that are in flight: sent and not yet read.
    pub closed spec fn in_flight(&self, d: int) -> Seq<DeviceToCircuitMessage> {
        self.workers[d].events@
    }

    /// The latest next tick that device `d` reported.
    pub closed spec fn scheduled(&self, d: int) -> u64 {
        self.workers[d].next_tick
    }

    pub closed spec fn last_tick(&self) -> u64 {
        self.last_tick
    }

    /// The fanout of pin `p` of device `d`.
    pub closed spec fn fanout(&self, d: int, p: int) -> Seq<(usize, usize)> {
        self.fanout[d][p]@
    }

    /// The states of the devices, in order.
    pub open spec fn devices(&self) -> Seq<D> {
        Seq::new(self.len(), |d: int| self.device(d))
    }

    /// The fanout table, by device and pin.
    pub closed spec fn table(&self) -> FanoutTable {
        Seq::new(self.fanout@.len(), |d: int| Seq::new(self.fanout[d]@.len(), |p: int| self.fanout[d][p]@))
    }

    /// The reported next ticks, by device.
    pub open spec fn schedule(&self) -> Seq<u64> {
        Seq::new(self.len(), |d: int| self.scheduled(d))
    }

    /// The fanout table, as `table()` gives it to the model of a tick, is
    /// the table of `fanout(d, p)`: a row per device, a slot per pin and
    /// slot 0.
    pub proof fn lemma_table(&self)
        requires
            self.wf(),
        ensures
            self.table().len() == self.len(),
            forall|d: int|
                0 <= d < self.len() ==> #[trigger] self.table()[d].len() == self.device(d).pin_count() + 1,
            forall|d: int, p: int|
                0 <= d < self.len() && 0 <= p <= self.device(d).pin_count() ==> #[trigger] self.table()[d][p]
                    == self.fanout(d, p),
    {
        assert forall|d: int| 0 <= d < self.len() implies #[trigger] self.table()[d].len()
            == self.device(d).pin_count() + 1 by {
            assert(self.fanout[d].len() == self.workers[d].device.pin_count() + 1);
        }
        assert forall|d: int, p: int|
            0 <= d < self.len() && 0 <= p <= self.device(d).pin_count() implies #[trigger] self.table()[d][p]
                == self.fanout(d, p) by {
            assert(self.fanout[d].len() == self.workers[d].device.pin_count() + 1);
        }
    }

    /// The fanout table has a row per device and a slot per pin (slot 0
    /// unused), and every entry names an existing pin other than its own.
    pub closed spec fn wf(&self) -> bool {
        &&& self.fanout.len() == self.workers.len()
        &&& forall|d: int|
            0 <= d < self.workers.len() ==> #[trigger] self.fanout[d].len()
                == self.workers[d].device.pin_count() + 1
        &&& forall|d: int, p: int|
            0 <= d < self.fanout.len() && 0 <= p < self.fanout[d].len() ==> entries_ok(
                #[trigger] self.fanout[d][p]@,
                (d as usize, p as usize),
                fits(self.fanout@),
            )
    }

    /// Every worker runs and no event is in flight.
    pub open spec fn ready(&self) -> bool {
        forall|d: int| 0 <= d < self.len() ==> #[trigger] self.running(d) && self.in_flight(d).len() == 0
    }

    /// No device has anything to do: each is quiet.
    pub open spec fn settled(&self) -> bool {
        forall|d: int| 0 <= d < self.len() ==> #[trigger] quiet(self.device(d))
    }

    /// The minimum of the devices' reported next ticks, `u64::MAX` when
    /// there are none.
    pub open spec fn earliest(&self) -> u64 {
        earliest_of(self.schedule(), self.len() as int)
    }

    /// What a step of the kernel keeps: the topology, the channels, the
    /// workers' liveness, the pin counts and the last tick.
    closed spec fn frame(&self, other: &Circuit<D>) -> bool {
        &&& self.fanout == other.fanout
        &&& self.last_tick == other.last_tick
        &&& self.workers.len() == other.workers.len()
        &&& forall|j: int|
            0 <= j < self.workers.len() ==> (#[trigger] self.workers[j]).running
                == other.workers[j].running && self.workers[j].events == other.workers[j].events
                && self.workers[j].device.pin_count() == other.workers[j].device.pin_count()
    }

    proof fn lemma_frame_wf(&self, other: &Circuit<D>)
        requires
            other.wf(),
            self.frame(other),
        ensures
            self.wf(),
    {
        self.lemma_dims_wf(other);
    }

    /// The fanout table still fits when it and every pin count are kept.
    proof fn lemma_dims_wf(&self, other: &Circuit<D>)
        requires
            other.wf(),
            self.fanout == other.fanout,
            self.workers.len() == other.workers.len(),
            forall|j: int|
                0 <= j < self.workers.len() ==> (#[trigger] self.workers[j]).device.pin_count()
                    == other.workers[j].device.pin_count(),
        ensures
            self.wf(),
    {
        assert forall|d: int| 0 <= d < self.workers.len() implies #[trigger] self.fanout[d].len()
            == self.workers[d].device.pin_count() + 1 by {
            assert(other.fanout[d].len() == other.workers[d].device.pin_count() + 1);
            assert(self.workers[d].device.pin_count() == other.workers[d].device.pin_count());
        }
    }

    /// Builds the circuit: one worker per device, in order, and the fanout
    /// table of the nets. Every connection must name an existing device and
    /// one of its pins.
    pub fn new(devices: Vec<D>, nets: Vec<Net>) -> (r: Circuit<D>)
        requires
            all_points(
                nets@,
                |x: (usize, usize)|
                    (x.0 as int) < devices@.len() && x.1 <= devices@[x.0 as int].pin_count(),
            ),
        ensures
            r.wf(),
            r.ready(),
            r.len() == devices@.len(),
            r.last_tick() == 0,
            forall|d: int|
                0 <= d < devices@.len() ==> #[trigger] r.device(d) == devices@[d] && r.scheduled(d)
                    == u64::MAX,
            forall|d: int, p: int|
                0 <= d < devices@.len() && 0 <= p <= devices@[d].pin_count() ==> #[trigger] r.fanout(
                    d,
                    p,
                ) == fanout_of(nets@, (d as usize, p as usize)),
    {
        let ghost ok = |x: (usize, usize)|
            (x.0 as int) < devices@.len() && x.1 <= devices@[x.0 as int].pin_count();
        let n = devices.len();
        let mut fanout: Vec<Vec<Vec<(usize, usize)>>> = Vec::new();
        let mut d: usize = 0;
        while d < n
            invariant
                n == devices@.len(),
                d <= n,
                fanout@.len() == d,
                all_points(nets@, ok),
                forall|e: int|
                    0 <= e < d ==> #[trigger] fanout@[e]@.len() == devices@[e].pin_count() + 1,
                forall|e: int, p: int|
                    0 <= e < d && 0 <= p < fanout@[e]@.len() ==> #[trigger] fanout@[e]@[p]@
                        == fanout_of(nets@, (e as usize, p as usize)) && entries_ok(
                        fanout@[e]@[p]@,
                        (e as usize, p as usize),
                        ok,
                    ),
            decreases n - d,
        {
            let pins = devices[d].get_pin_count();
            let mut row: Vec<Vec<(usize, usize)>> = Vec::new();
            let mut p: usize = 0;
            while p <= pins
                invariant
                    d < n,
                    n == devices@.len(),
                    pins == devices@[d as int].pin_count(),
                    pins < usize::MAX,
                    p <= pins + 1,
                    row@.len() == p,
                    all_points(nets@, ok),
                    forall|q: int|
                        0 <= q < p ==> #[trigger] row@[q]@ == fanout_of(nets@, (d, q as usize))
                            && entries_ok(row@[q]@, (d, q as usize), ok),
                decreases pins + 1 - p,
            {
                let peers = peers_of(&nets, (d, p));
                proof {
                    lemma_fanout_points(nets@, (d, p), nets@.len() as int, ok);
                }
                row.push(peers);
                p = p + 1;
            }
            fanout.push(row);
            d = d + 1;
        }
        let mut workers: Vec<Worker<D>> = Vec::new();
        let mut devices = devices;
        let ghost all = devices@;
        while devices.len() > 0
            invariant
                workers@.len() + devices@.len() == all.len(),
                devices@ == all.subrange(workers@.len() as int, all.len() as int),
                forall|e: int|
                    0 <= e < workers@.len() ==> (#[trigger] workers@[e]).device == all[e]
                        && workers@[e].running && workers@[e].events@.len() == 0
                        && workers@[e].next_tick == u64::MAX,
            decreases devices@.len(),
        {
            let device = devices.remove(0);
            workers.push(Worker { device, events: Vec::new(), running: true, next_tick: u64::MAX });
        }
        let r = Circuit { workers, last_tick: 0, fanout };
        proof {
            assert forall|e: int, p: int|
                0 <= e < r.fanout.len() && 0 <= p < r.fanout[e].len() implies entries_ok(
                #[trigger] r.fanout[e][p]@,
                (e as usize, p as usize),
                fits(r.fanout@),
            ) by {
                let row = r.fanout[e][p]@;
                assert(entries_ok(row, (e as usize, p as usize), ok));
                assert forall|x: int| 0 <= x < row.len() implies fits(r.fanout@)(#[trigger] row[x])
                    && row[x] != (e as usize, p as usize) by {
                    assert(ok(row[x]));
                    assert(r.fanout@[row[x].0 as int]@.len() == all[row[x].0 as int].pin_count() + 1);
                }
            }
        }
        r
    }

    /// Hands an output change to one peer pin and reads the peer's reply.
    fn deliver(&mut self, tick: u64, target: (usize, usize), value: u32, pending: &mut Vec<bool>)
        requires
            old(self).wf(),
            (target.0 as int) < old(self).workers@.len(),
            old(pending)@.len() == old(self).workers@.len(),
        ensures
            final(self).wf(),
            final(self).frame(old(self)),
            final(pending)@ == old(pending)@.update(target.0 as int, true),
            final(self).devices() == old(self).devices().update(
                target.0 as int,
                old(self).devices()[target.0 as int].after(set_pin_command(tick, target, value)),
            ),
            final(self).schedule() == old(self).schedule().update(
                target.0 as int,
                following_tick(tick),
            ),
    {
        let mut out: Vec<DeviceToCircuitMessage> = Vec::new();
        let _ = self.workers[target.0].device.handle(
            CircuitToDeviceMessage::SetPin { tick, pin: target.1, value, last: true },
            &mut out,
        );
        if out.len() > 0 {
            if let DeviceToCircuitMessage::NextTick { tick: reply } = out[0] {
                self.workers[target.0].next_tick = reply;
            }
        }
        pending.set(target.0, true);
        proof {
            self.lemma_frame_wf(old(self));
            assert(self.devices() =~= old(self).devices().update(
                target.0 as int,
                old(self).devices()[target.0 as int].after(set_pin_command(tick, target, value)),
            ));
            assert(self.schedule() =~= old(self).schedule().update(
                target.0 as int,
                following_tick(tick),
            ));
        }
    }

    /// Propagates an output change of pin `pin` of device `d`: every entry
    /// of its fanout, in order, gets exactly one `SetPin` command with
    /// `last` set, and its reply is read before the next one.
    fn propagate(&mut self, tick: u64, d: usize, pin: usize, value: u32, pending: &mut Vec<bool>)
        requires
            old(self).wf(),
            (d as int) < old(self).workers@.len(),
            (pin as int) < old(self).fanout[d as int]@.len(),
            old(pending)@.len() == old(self).workers@.len(),
        ensures
            final(self).wf(),
            final(self).frame(old(self)),
            final(pending)@.len() == old(pending)@.len(),
            final(self).devices() == after_deliveries(
                old(self).devices(),
                old(self).fanout(d as int, pin as int),
                tick,
                value,
            ),
            forall|j: int|
                0 <= j < final(pending)@.len() ==> #[trigger] final(pending)@[j] == (old(pending)@[j]
                    || targeted(old(self).fanout(d as int, pin as int), j)),
            forall|j: int|
                0 <= j < final(pending)@.len() ==> #[trigger] final(self).schedule()[j] == if targeted(
                    old(self).fanout(d as int, pin as int),
                    j,
                ) {
                    following_tick(tick)
                } else {
                    old(self).schedule()[j]
                },
    {
        let ghost row = self.fanout[d as int]@[pin as int]@;
        let count = self.fanout[d][pin].len();
        let mut k: usize = 0;
        while k < count
            invariant
                self.wf(),
                self.frame(old(self)),
                count == row.len(),
                k <= count,
                row == self.fanout[d as int]@[pin as int]@,
                (d as int) < self.workers@.len(),
                (pin as int) < self.fanout[d as int]@.len(),
                row == old(self).fanout(d as int, pin as int),
                pending@.len() == old(pending)@.len(),
                pending@.len() == self.workers@.len(),
                self.devices() == after_deliveries(old(self).devices(), row.take(k as int), tick, value),
                forall|j: int|
                    0 <= j < pending@.len() ==> #[trigger] pending@[j] == (old(pending)@[j]
                        || targeted(row.take(k as int), j)),
                forall|j: int|
                    0 <= j < pending@.len() ==> #[trigger] self.schedule()[j] == if targeted(
                        row.take(k as int),
                        j,
                    ) {
                        following_tick(tick)
                    } else {
                        old(self).schedule()[j]
                    },
            decreases count - k,
        {
            let target = self.fanout[d][pin][k];
            proof {
                assert(entries_ok(row, (d, pin), fits(self.fanout@)));
                assert(fits(self.fanout@)(row[k as int]));
            }
            let ghost before_pending = pending@;
            let ghost before_schedule = self.schedule();
            self.deliver(tick, target, value, pending);
            proof {
                let next = row.take(k + 1);
                assert(next.drop_last() =~= row.take(k as int));
                assert(next.last() == target);
                assert forall|j: int| 0 <= j < pending@.len() implies #[trigger] pending@[j] == (
                old(pending)@[j] || targeted(next, j)) by {
                    lemma_targeted_take(row, k as int, j);
                }
                assert forall|j: int| 0 <= j < pending@.len() implies #[trigger] self.schedule()[j]
                    == if targeted(next, j) {
                    following_tick(tick)
                } else {
                    old(self).schedule()[j]
                } by {
                    lemma_targeted_take(row, k as int, j);
                }
            }
            k = k + 1;
        }
        proof {
            assert(row.take(count as int) =~= row);
        }
    }

    /// Sends `NextTick { tick }` to device `i` and drains its answer: each
    /// `SetPin` on an output is propagated at once, in the order emitted, and
    /// the closing `NextTick` reply is recorded.
    fn poll(&mut self, i: usize, tick: u64, pending: &mut Vec<bool>)
        requires
            old(self).wf(),
            (i as int) < old(self).workers@.len(),
            old(pending)@.len() == old(self).workers@.len(),
        ensures
            final(self).wf(),
            final(self).frame(old(self)),
            final(pending)@.len() == old(pending)@.len(),
            (final(self).devices(), final(self).schedule(), final(pending)@) == polled(
                old(self).table(),
                (old(self).devices(), old(self).schedule(), old(pending)@),
                i as int,
                tick,
            ),
            quiet(old(self).devices()[i as int]) ==> {
                &&& final(self).devices() == old(self).devices()
                &&& final(self).schedule() == old(self).schedule().update(i as int, u64::MAX)
                &&& final(pending)@ == old(pending)@.update(i as int, false)
            },
    {
        let ghost fan = old(self).table();
        pending.set(i, false);
        let msg = CircuitToDeviceMessage::NextTick { tick };
        let ghost quiet = quiet(old(self).devices()[i as int]);
        let ghost start: SimState<D> = (
            old(self).devices().update(i as int, old(self).devices()[i as int].after(msg)),
            old(self).schedule(),
            old(pending)@.update(i as int, false),
        );
        let mut out: Vec<DeviceToCircuitMessage> = Vec::new();
        let _ = self.workers[i].device.handle(msg, &mut out);
        proof {
            self.lemma_frame_wf(old(self));
            if quiet {
                assert(old(self).workers[i as int].device.after(msg) == old(self).workers[i as int].device);
                assert(self.devices() =~= old(self).devices());
            }
            assert(self.devices() =~= start.0);
            assert(self.schedule() =~= start.1);
            assert(out@ == old(self).devices()[i as int].emits(msg));
            assert(out@.take(0) =~= Seq::<DeviceToCircuitMessage>::empty());
            assert(old(self).fanout[i as int].len() == old(self).workers[i as int].device.pin_count() + 1);
            assert(self.fanout[i as int]@.len() == old(self).workers[i as int].device.pin_count() + 1);
            assert(answers_tick(out@, old(self).workers[i as int].device.pin_count()));
        }
        let mut k: usize = 0;
        while k < out.len()
            invariant
                self.wf(),
                self.frame(old(self)),
                fan == old(self).table(),
                (i as int) < self.workers@.len(),
                k <= out@.len(),
                pending@.len() == old(pending)@.len(),
                pending@.len() == self.workers@.len(),
                out@ == old(self).devices()[i as int].emits(msg),
                answers_tick(out@, (self.fanout[i as int]@.len() - 1) as nat),
                (self.devices(), self.schedule(), pending@) == drained(fan, start, i as int, out@.take(k as int), tick),
                quiet ==> {
                    &&& out@ == seq![DeviceToCircuitMessage::NextTick { tick: u64::MAX }]
                    &&& self.devices() == old(self).devices()
                    &&& self.schedule() == if k == 0 {
                        old(self).schedule()
                    } else {
                        old(self).schedule().update(i as int, u64::MAX)
                    }
                    &&& pending@ == old(pending)@.update(i as int, false)
                },
            decreases out@.len() - k,
        {
            let ghost prev: SimState<D> = (self.devices(), self.schedule(), pending@);
            let ev = out[k];
            proof {
                assert(out@.take(k + 1).drop_last() =~= out@.take(k as int));
                assert(out@.take(k + 1).last() == ev);
                assert(fan[i as int].len() == self.fanout[i as int]@.len());
            }
            match ev {
                DeviceToCircuitMessage::SetPin { pin, value, direction } => {
                    if direction == PinDirection::Output {
                        proof {
                            assert(out@[k as int] is SetPin);
                            assert(self.fanout[i as int].len() == self.workers[i as int].device.pin_count() + 1);
                            assert(on_own_pin(out@[k as int], (self.fanout[i as int]@.len() - 1) as nat));
                            assert(pin == out@[k as int]->SetPin_pin);
                            assert(1 <= out@[k as int]->SetPin_pin <= self.fanout[i as int]@.len() - 1);
                        }
                        self.propagate(tick, i, pin, value, pending);
                        proof {
                            let row = fan[i as int][pin as int];
                            assert(row == self.fanout(i as int, pin as int));
                            let want = delivered_to(row, prev, tick, value);
                            assert(self.schedule() =~= want.1);
                            assert(pending@ =~= want.2);
                        }
                    }
                },
                DeviceToCircuitMessage::NextTick { tick: reply } => {
                    self.workers[i].next_tick = reply;
                    proof {
                        self.lemma_frame_wf(old(self));
                        assert(self.devices() =~= prev.0);
                        assert(self.schedule() =~= prev.1.update(i as int, reply));
                        if quiet {
                            assert(self.devices() =~= old(self).devices());
                            assert(self.schedule() =~= old(self).schedule().update(i as int, u64::MAX));
                        }
                    }
                },
                DeviceToCircuitMessage::Data { data: _ } => {},
            }
            k = k + 1;
        }
        proof {
            assert(out@.take(out@.len() as int) =~= out@);
        }
    }

    /// Advances the circuit to `tick` and returns the earliest tick that a
    /// device asked to be woken at (`u64::MAX` when none did).
    ///
    /// Every device is sent `NextTick { tick }` and drained in index order;
    /// each output change is propagated to its fanout at once. A device that
    /// received an input change answers that it wants to be queried again,
    /// and it is: the same tick is re-run for such devices, round after
    /// round, until none is left or the circuit has run as many rounds as it
    /// has devices, which is enough for any circuit without feedback.
    /// A device still waiting after the last round keeps its request for the
    /// following tick, which the result then reflects.
    pub fn tick(&mut self, tick: u64) -> (r: Result<u64, CircuitError>)
        requires
            old(self).wf(),
        ensures
            final(self).wf(),
            final(self).len() == old(self).len(),
            forall|d: int, p: int| #[trigger] final(self).fanout(d, p) == old(self).fanout(d, p),
            tick <= old(self).last_tick() ==> r == Err::<u64, CircuitError>(
                CircuitError::TickNotIncreasing { tick, last_tick: old(self).last_tick() },
            ),
            tick > old(self).last_tick() && !old(self).ready() ==> match r {
                Err(CircuitError::WorkerLost { device }) => (device as int) < old(self).len()
                    && !old(self).running(device as int),
                Err(CircuitError::UnexpectedData { device }) => (device as int) < old(self).len()
                    && old(self).in_flight(device as int).len() > 0,
                _ => false,
            },
            r is Err ==> *final(self) == *old(self),
            tick > old(self).last_tick() && old(self).ready() ==> {
                &&& r == Ok::<u64, CircuitError>(final(self).earliest())
                &&& final(self).last_tick() == tick
                &&& final(self).ready()
                &&& (final(self).devices(), final(self).schedule()) == rounds_from(
                    old(self).table(),
                    old(self).len() as int,
                    old(self).devices(),
                    old(self).schedule(),
                    Seq::new(old(self).len(), |j: int| true),
                    0,
                    tick,
                )
            },
            tick > old(self).last_tick() && old(self).ready() && old(self).settled() ==> {
                &&& r == Ok::<u64, CircuitError>(u64::MAX)
                &&& final(self).devices() == old(self).devices()
                &&& final(self).settled()
            },
            tick > old(self).last_tick() && old(self).len() == 0 ==> r == Ok::<u64, CircuitError>(
                u64::MAX,
            ),
    {
        if tick <= self.last_tick {
            return Err(CircuitError::TickNotIncreasing { tick, last_tick: self.last_tick });
        }
        match self.check_ready() {
            Some(fault) => {
                return Err(fault);
            },
            None => {},
        }
        let n = self.workers.len();
        let ghost settled = old(self).settled();
        let mut pending: Vec<bool> = Vec::new();
        while pending.len() < n
            invariant
                *self == *old(self),
                old(self).wf(),
                old(self).ready(),
                tick > old(self).last_tick(),
                n == self.workers@.len(),
                pending@.len() <= n,
                forall|j: int| 0 <= j < pending@.len() ==> #[trigger] pending@[j],
            decreases n - pending@.len(),
        {
            pending.push(true);
        }
        let ghost fan = old(self).table();
        let ghost outcome = rounds_from(
            fan,
            n as int,
            old(self).devices(),
            old(self).schedule(),
            Seq::new(n as nat, |j: int| true),
            0,
            tick,
        );
        let mut round: usize = 0;
        let mut active = n > 0;
        proof {
            assert(pending@ =~= Seq::new(n as nat, |j: int| true));
            if n > 0 {
                assert(pending@[0]);
            }
        }
        while active && round < n
            invariant
                fan == old(self).table(),
                fan == self.table(),
                active == exists|j: int| 0 <= j < pending@.len() && #[trigger] pending@[j],
                rounds_from(fan, n as int, self.devices(), self.schedule(), pending@, round as int, tick)
                    == outcome,
                self.wf(),
                self.frame(old(self)),
                old(self).wf(),
                old(self).ready(),
                tick > old(self).last_tick(),
                n == self.workers@.len(),
                n == old(self).workers@.len(),
                settled == old(self).settled(),
                pending@.len() == n,
                round <= n,
                round == 0 ==> active == (n > 0) && forall|j: int| 0 <= j < n ==> #[trigger] pending@[j],
                settled ==> self.devices() == old(self).devices(),
                settled && round > 0 ==> !active && forall|j: int|
                    0 <= j < n ==> #[trigger] self.schedule()[j] == u64::MAX,
            decreases n - round,
        {
            let mut next: Vec<bool> = Vec::new();
            while next.len() < n
                invariant
                    next@.len() <= n,
                    forall|j: int| 0 <= j < next@.len() ==> !#[trigger] next@[j],
                decreases n - next@.len(),
            {
                next.push(false);
            }
            let ghost start: SimState<D> = (self.devices(), self.schedule(), next@);
            proof {
                assert(next@ =~= Seq::new(n as nat, |j: int| false));
            }
            let mut i: usize = 0;
            while i < n
                invariant
                    fan == self.table(),
                    (self.devices(), self.schedule(), next@) == round_upto(fan, start, pending@, i as int, tick),
                    self.wf(),
                    self.frame(old(self)),
                    n == self.workers@.len(),
                    n == old(self).workers@.len(),
                    settled == old(self).settled(),
                    pending@.len() == n,
                    next@.len() == n,
                    i <= n,
                    round == 0 ==> forall|j: int| 0 <= j < n ==> #[trigger] pending@[j],
                    settled ==> self.devices() == old(self).devices(),
                    settled && round == 0 ==> {
                        &&& forall|j: int| 0 <= j < i ==> #[trigger] self.schedule()[j] == u64::MAX
                        &&& forall|j: int| 0 <= j < n ==> !#[trigger] next@[j]
                    },
                decreases n - i,
            {
                if pending[i] {
                    proof {
                        if settled {
                            assert(old(self).devices()[i as int] == old(self).device(i as int));
                            assert(quiet(old(self).device(i as int)));
                        }
                    }
                    self.poll(i, tick, &mut next);
                }
                i = i + 1;
            }
            pending = next;
            let mut j: usize = 0;
            active = false;
            while j < n
                invariant
                    pending@.len() == n,
                    j <= n,
                    active == exists|m: int| 0 <= m < j && #[trigger] pending@[m],
                decreases n - j,
            {
                if pending[j] {
                    active = true;
                }
                j = j + 1;
            }
            round = round + 1;
        }
        let ghost sched = self.schedule();
        proof {
            if settled {
                if n > 0 {
                    assert(round > 0);
                }
                assert forall|j: int| 0 <= j < sched.len() implies sched[j] == u64::MAX by {
                    assert(self.schedule()[j] == u64::MAX);
                }
            }
        }
        self.last_tick = tick;
        proof {
            assert(self.schedule() =~= sched);
        }
        let r = self.earliest_scheduled();
        proof {
            if settled {
                if n == 0 {
                    assert(self.schedule().len() == 0);
                }
                lemma_earliest_all_max(self.schedule(), n as int);
            }
            assert forall|j: int| 0 <= j < self.len() implies #[trigger] self.running(j)
                && self.in_flight(j).len() == 0 by {
                assert(old(self).running(j) && old(self).in_flight(j).len() == 0);
                assert(self.workers[j].running == old(self).workers[j].running);
            }
            assert(self.ready());
            assert(self.last_tick() == tick);
            assert(r == self.earliest());
            if settled {
                assert forall|d: int| 0 <= d < self.len() implies #[trigger] quiet(self.device(d)) by {
                    assert(self.devices()[d] == old(self).devices()[d]);
                    assert(quiet(old(self).device(d)));
                }
            }
        }
        Ok(r)
    }

    /// The first worker, by index, that has stopped or has an event in
    /// flight, reported as the matching fault.
    fn check_ready(&self) -> (r: Option<CircuitError>)
        ensures
            r is None <==> self.ready(),
            match r {
                Some(CircuitError::WorkerLost { device }) => (device as int) < self.len()
                    && !self.running(device as int),
                Some(CircuitError::UnexpectedData { device }) => (device as int) < self.len()
                    && self.in_flight(device as int).len() > 0,
                Some(_) => false,
                None => true,
            },
    {
        let n = self.workers.len();
        let mut d: usize = 0;
        while d < n
            invariant
                n == self.workers@.len(),
                d <= n,
                forall|j: int|
                    0 <= j < d ==> (#[trigger] self.workers@[j]).running && self.workers@[j].events@.len()
                        == 0,
            decreases n - d,
        {
            if !self.workers[d].running {
                assert(!self.running(d as int));
                return Some(CircuitError::WorkerLost { device: d });
            }
            if self.workers[d].events.len() > 0 {
                assert(self.running(d as int));
                assert(self.in_flight(d as int).len() > 0);
                return Some(CircuitError::UnexpectedData { device: d });
            }
            d = d + 1;
        }
        proof {
            assert forall|j: int| 0 <= j < self.len() implies #[trigger] self.running(j)
                && self.in_flight(j).len() == 0 by {
                assert(self.workers@[j].running);
            }
        }
        None
    }

    fn earliest_scheduled(&self) -> (r: u64)
        ensures
            r == self.earliest(),
    {
        let mut best: u64 = u64::MAX;
        let mut d: usize = 0;
        while d < self.workers.len()
            invariant
                d <= self.workers@.len(),
                best == earliest_of(self.schedule(), d as int),
            decreases self.workers@.len() - d,
        {
            if self.workers[d].next_tick < best {
                best = self.workers[d].next_tick;
            }
            d = d + 1;
        }
        best
    }

    /// Every device but `d` is as in `other`: state, liveness, channel and
    /// reported next tick; so are the device count, the fanout and the
    /// last tick.
    pub open spec fn same_but(&self, other: &Circuit<D>, d: int) -> bool {
        &&& self.len() == other.len()
        &&& self.last_tick() == other.last_tick()
        &&& forall|e: int, p: int| #[trigger] self.fanout(e, p) == other.fanout(e, p)
        &&& self.scheduled(d) == other.scheduled(d)
        &&& forall|j: int|
            0 <= j < self.len() && j != d ==> {
                &&& #[trigger] self.device(j) == other.device(j)
                &&& self.running(j) == other.running(j)
                &&& self.in_flight(j) == other.in_flight(j)
                &&& self.scheduled(j) == other.scheduled(j)
            }
    }

    /// `after` is `before` once device `d` handled `Data { data }`, with
    /// outcome `r`: a stopped worker takes nothing; a running one updates
    /// its state and liveness and queues its responses on its channel.
    pub open spec fn data_sent(
        before: &Circuit<D>,
        after: &Circuit<D>,
        d: int,
        data: DeviceData,
        r: Result<(), CircuitError>,
    ) -> bool {
        let msg = CircuitToDeviceMessage::Data { data };
        &&& after.same_but(before, d)
        &&& !before.running(d) ==> r == Err::<(), CircuitError>(
            CircuitError::WorkerLost { device: d as usize },
        ) && *after == *before
        &&& before.running(d) ==> {
            &&& r == Ok::<(), CircuitError>(())
            &&& after.device(d) == before.device(d).after(msg)
            &&& after.running(d) == before.device(d).continues(msg)
            &&& after.in_flight(d) == before.in_flight(d) + before.device(d).emits(msg)
        }
    }

    /// Sends `data` to device `device_index` over the data channel; any
    /// response waits on the device's channel.
    pub fn send_device_data(&mut self, device_index: usize, data: DeviceData) -> (r: Result<
        (),
        CircuitError,
    >)
        requires
            old(self).wf(),
            (device_index as int) < old(self).len(),
        ensures
            final(self).wf(),
            Circuit::data_sent(old(self), final(self), device_index as int, data, r),
    {
        if !self.workers[device_index].running {
            return Err(CircuitError::WorkerLost { device: device_index });
        }
        let mut out: Vec<DeviceToCircuitMessage> = Vec::new();
        let running = self.workers[device_index].device.handle(
            CircuitToDeviceMessage::Data { data },
            &mut out,
        );
        self.workers[device_index].events.append(&mut out);
        self.workers[device_index].running = running;
        proof {
            assert forall|j: int| 0 <= j < self.workers.len() implies (
            #[trigger] self.workers[j]).device.pin_count() == old(self).workers[j].device.pin_count() by {
            }
            self.lemma_dims_wf(old(self));
            assert(self.in_flight(device_index as int) =~= old(self).in_flight(device_index as int)
                + old(self).device(device_index as int).emits(CircuitToDeviceMessage::Data { data }));
        }
        Ok(())
    }

    /// Sends `data` to device `device_index` and reads one message from the
    /// device's channel: its response when that is data.
    pub fn recv_device_data(&mut self, device_index: usize, data: DeviceData) -> (r: Result<
        DeviceData,
        CircuitError,
    >)
        requires
            old(self).wf(),
            (device_index as int) < old(self).len(),
        ensures
            final(self).wf(),
            ({
                let d = device_index as int;
                let msg = CircuitToDeviceMessage::Data { data };
                let queue = old(self).in_flight(d) + old(self).device(d).emits(msg);
                &&& final(self).same_but(old(self), d)
                &&& !old(self).running(d) ==> r == Err::<DeviceData, CircuitError>(
                    CircuitError::WorkerLost { device: device_index },
                ) && *final(self) == *old(self)
                &&& old(self).running(d) ==> {
                    &&& final(self).device(d) == old(self).device(d).after(msg)
                    &&& final(self).running(d) == old(self).device(d).continues(msg)
                    &&& queue.len() == 0 ==> r == Err::<DeviceData, CircuitError>(
                        CircuitError::NoResponse { device: device_index },
                    ) && final(self).in_flight(d) == queue
                    &&& queue.len() > 0 ==> final(self).in_flight(d) == queue.drop_first()
                    &&& queue.len() > 0 && queue[0] is Data ==> r == Ok::<DeviceData, CircuitError>(
                        queue[0]->Data_data,
                    )
                    &&& queue.len() > 0 && !(queue[0] is Data) ==> r == Err::<
                        DeviceData,
                        CircuitError,
                    >(CircuitError::UnexpectedMessage { device: device_index })
                }
            }),
    {
        match self.send_device_data(device_index, data) {
            Err(e) => {
                return Err(e);
            },
            Ok(()) => {},
        }
        if self.workers[device_index].events.len() == 0 {
            return Err(CircuitError::NoResponse { device: device_index });
        }
        let ghost before = *self;
        let first = self.workers[device_index].events.remove(0);
        proof {
            assert forall|j: int| 0 <= j < self.workers.len() implies (
            #[trigger] self.workers[j]).device.pin_count() == before.workers[j].device.pin_count() by {
            }
            self.lemma_dims_wf(&before);
            assert(self.in_flight(device_index as int) =~= before.in_flight(
                device_index as int,
            ).drop_first());
            assert forall|e: int, p: int| #[trigger] self.fanout(e, p) == old(self).fanout(e, p) by {
                assert(before.fanout(e, p) == old(self).fanout(e, p));
            }
            assert forall|j: int| 0 <= j < self.len() && j != device_index as int implies {
                &&& #[trigger] self.device(j) == old(self).device(j)
                &&& self.running(j) == old(self).running(j)
                &&& self.in_flight(j) == old(self).in_flight(j)
                &&& self.scheduled(j) == old(self).scheduled(j)
            } by {
                assert(self.workers[j] == before.workers[j]);
                assert(before.device(j) == old(self).device(j));
            }
            assert(self.same_but(old(self), device_index as int));
        }
        match first {
            DeviceToCircuitMessage::Data { data: response } => Ok(response),
            _ => Err(CircuitError::UnexpectedMessage { device: device_index }),
        }
    }

    /// Tears the circuit down: every worker still running is sent
    /// `Terminate`, and afterwards none runs.
    pub fn shutdown(&mut self)
        requires
            old(self).wf(),
        ensures
            final(self).wf(),
            final(self).len() == old(self).len(),
            final(self).last_tick() == old(self).last_tick(),
            forall|d: int| 0 <= d < final(self).len() ==> !#[trigger] final(self).running(d),
            forall|d: int|
                0 <= d < final(self).len() ==> #[trigger] final(self).device(d) == if old(
                    self,
                ).running(d) {
                    old(self).device(d).after(CircuitToDeviceMessage::Terminate)
                } else {
                    old(self).device(d)
                },
    {
        let n = self.workers.len();
        let mut d: usize = 0;
        while d < n
            invariant
                self.wf(),
                self.workers@.len() == old(self).workers@.len(),
                self.fanout == old(self).fanout,
                self.last_tick == old(self).last_tick,
                n == self.workers@.len(),
                d <= n,
                forall|j: int| 0 <= j < d ==> !#[trigger] self.running(j),
                forall|j: int|
                    0 <= j < n ==> #[trigger] self.device(j) == if j < d && old(self).running(j) {
                        old(self).device(j).after(CircuitToDeviceMessage::Terminate)
                    } else {
                        old(self).device(j)
                    },
                forall|j: int| d <= j < n ==> #[trigger] self.running(j) == old(self).running(j),
            decreases n - d,
        {
            let ghost before = *self;
            proof {
                assert(before.device(d as int) == old(self).device(d as int));
                assert(before.running(d as int) == old(self).running(d as int));
            }
            if self.workers[d].running {
                let mut out: Vec<DeviceToCircuitMessage> = Vec::new();
                let _ = self.workers[d].device.handle(CircuitToDeviceMessage::Terminate, &mut out);
                self.workers[d].events.append(&mut out);
                self.workers[d].running = false;
                proof {
                    assert forall|j: int| 0 <= j < self.workers.len() implies (
                    #[trigger] self.workers[j]).device.pin_count()
                        == before.workers[j].device.pin_count() by {}
                    self.lemma_dims_wf(&before);
                    assert(self.device(d as int) == old(self).device(d as int).after(
                        CircuitToDeviceMessage::Terminate,
                    ));
                }
            }
            proof {
                assert forall|j: int| 0 <= j < n && j != d implies #[trigger] self.workers[j]
                    == before.workers[j] by {}
                assert forall|j: int| 0 <= j < d + 1 implies !#[trigger] self.running(j) by {
                    if j < d {
                        assert(!before.running(j));
                    }
                }
                assert forall|j: int| 0 <= j < n implies #[trigger] self.device(j) == if j < d + 1
                    && old(self).running(j) {
                    old(self).device(j).after(CircuitToDeviceMessage::Terminate)
                } else {
                    old(self).device(j)
                } by {
                    if j != d {
                        assert(before.device(j) == self.device(j));
                    } else {
                        assert(before.running(j) == old(self).running(j));
                    }
                }
                assert forall|j: int| d + 1 <= j < n implies #[trigger] self.running(j) == old(
                    self,
                ).running(j) by {
                    assert(before.running(j) == self.running(j));
                }
            }
            d = d + 1;
        }
    }

    pub fn get_last_tick(&self) -> (r: u64)
        ensures
            r == self.last_tick(),
    {
        self.last_tick
    }

    pub fn device_count(&self) -> (r: usize)
        ensures
            r == self.len(),
    {
        self.workers.len()
    }
}

/// The fanout of `from` over `nets`, built in the order the nets and their
/// connections are given.
fn peers_of(nets: &Vec<Net>, from: (usize, usize)) -> (r: Vec<(usize, usize)>)
    ensures
        r@ == fanout_of(nets@, from),
{
    let mut row: Vec<(usize, usize)> = Vec::new();
    let mut k: usize = 0;
    while k < nets.len()
        invariant
            k <= nets@.len(),
            row@ == fanout_over(nets@, from, k as int),
        decreases nets@.len() - k,
    {
        let conns = nets[k].connections_iter();
        let ghost before = row@;
        let mut i: usize = 0;
        while i < conns.len()
            invariant
                k < nets@.len(),
                conns@ == nets@[k as int].points(),
                i <= conns@.len(),
                before == fanout_over(nets@, from, k as int),
                row@ == before + net_fanout(conns@, from, i as int),
            decreases conns@.len() - i,
        {
            let c = conns[i];
            if c.get_device() == from.0 && c.get_pin() == from.1 {
                let ghost mid = row@;
                let mut j: usize = 0;
                while j < conns.len()
                    invariant
                        i < conns@.len(),
                        j <= conns@.len(),
                        mid == before + net_fanout(conns@, from, i as int),
                        row@ == mid + peers_among(conns@, from, j as int),
                    decreases conns@.len() - j,
                {
                    let t = conns[j];
                    if !(t.get_device() == from.0 && t.get_pin() == from.1) {
                        row.push((t.get_device(), t.get_pin()));
                    }
                    proof {
                        assert(row@ =~= mid + peers_among(conns@, from, j + 1));
                    }
                    j = j + 1;
                }
                proof {
                    assert(row@ =~= before + net_fanout(conns@, from, i + 1));
                }
            } else {
                proof {
                    assert(row@ =~= before + net_fanout(conns@, from, i + 1));
                }
            }
            i = i + 1;
        }
        proof {
            assert(row@ =~= fanout_over(nets@, from, k + 1));
        }
        k = k + 1;
    }
    row
}

} // verus!
