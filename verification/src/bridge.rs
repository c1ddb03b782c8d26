//! The relay between an asynchronous peripheral and a synchronous peripheral
//! in master mode: one handler per peripheral, one queue per direction.
//!
//! The handler of the asynchronous peripheral fills the queue towards the
//! synchronous one and drains the queue coming from it; the handler of the
//! synchronous peripheral does the reverse. Each queue so has one producer
//! and one consumer, and the two handlers never run at the same time.

use crate::queue::{after_dequeue, after_offer, CircularQueue, CAPACITY};
use vstd::prelude::*;

verus! {

/// What the asynchronous peripheral signals when its handler is entered.
#[derive(Clone, Copy, Debug, PartialEq, Eq, Structural)]
pub struct AsyncStatus {
    /// Whether transmit-ready is asserted.
    pub transmit_ready: bool,
    /// The unit read from the receive register, when receive-ready was
    /// asserted. Reading it is what clears that condition.
    pub received: Option<u16>,
    /// Whether an overrun is flagged.
    pub overrun: bool,
}

impl AsyncStatus {
    /// No condition is asserted.
    pub open spec fn quiet(self) -> bool {
        !self.transmit_ready && self.received is None && !self.overrun
    }
}

/// What the synchronous peripheral signals when its handler is entered.
#[derive(Clone, Copy, Debug, PartialEq, Eq, Structural)]
pub struct SyncStatus {
    /// Whether transmit-ready is asserted.
    pub transmit_ready: bool,
    /// The unit read from the receive register, when receive-ready was
    /// asserted. Reading it is what clears that condition.
    pub received: Option<u16>,
}

impl SyncStatus {
    /// No condition is asserted.
    pub open spec fn quiet(self) -> bool {
        !self.transmit_ready && self.received is None
    }
}

/// One operation on the registers of one of the two peripherals.
#[derive(Clone, Copy, Debug, PartialEq, Eq, Structural)]
pub enum Command {
    /// Write the unit to the transmit register of the asynchronous
    /// peripheral.
    AsyncWrite(u16),
    /// Set the transmit-interrupt-enable bit of the asynchronous peripheral.
    AsyncArmTransmit,
    /// Clear the transmit-interrupt-enable bit of the asynchronous
    /// peripheral.
    AsyncDisarmTransmit,
    /// Acknowledge the overrun of the asynchronous peripheral by writing its
    /// clear-flag.
    AsyncClearOverrun,
    /// Write the unit to the transmit register of the synchronous
    /// peripheral.
    SyncWrite(u16),
    /// Wait until the synchronous peripheral reports that it is no longer
    /// busy: the transfer of the unit just written is then over. The wait
    /// lasts no longer than the clock burst of that one unit.
    SyncAwaitIdle,
    /// Enable the synchronous peripheral, which lets it generate its clock.
    SyncEnable,
    /// Disable the synchronous peripheral, which stops its clock.
    SyncDisable,
    /// Set the transmit-interrupt-enable bit of the synchronous peripheral.
    SyncArmTransmit,
    /// Clear the transmit-interrupt-enable bit of the synchronous peripheral.
    SyncDisarmTransmit,
}

/// The control bits of the two peripherals that the relay sets and clears.
#[derive(Clone, Copy, Debug, PartialEq, Eq, Structural)]
pub struct Controls {
    /// The transmit-interrupt-enable bit of the asynchronous peripheral.
    pub async_transmit_armed: bool,
    /// The transmit-interrupt-enable bit of the synchronous peripheral.
    pub sync_transmit_armed: bool,
    /// The peripheral-enable bit of the synchronous peripheral.
    pub sync_enabled: bool,
}

impl Controls {
    /// The bits after one command.
    pub open spec fn after(self, command: Command) -> Controls {
        match command {
            Command::AsyncArmTransmit => Controls { async_transmit_armed: true, ..self },
            Command::AsyncDisarmTransmit => Controls { async_transmit_armed: false, ..self },
            Command::SyncArmTransmit => Controls { sync_transmit_armed: true, ..self },
            Command::SyncDisarmTransmit => Controls { sync_transmit_armed: false, ..self },
            Command::SyncEnable => Controls { sync_enabled: true, ..self },
            Command::SyncDisable => Controls { sync_enabled: false, ..self },
            Command::AsyncWrite(_) => self,
            Command::AsyncClearOverrun => self,
            Command::SyncWrite(_) => self,
            Command::SyncAwaitIdle => self,
        }
    }

    /// The bits after a run of commands, carried out first to last.
    pub open spec fn after_all(self, commands: Seq<Command>) -> Controls
        decreases commands.len(),
    {
        if commands.len() == 0 {
            self
        } else {
            self.after_all(commands.drop_last()).after(commands.last())
        }
    }

    /// The bits as bring-up leaves them: no transmit interrupt is armed and
    /// the synchronous peripheral is disabled.
    pub open spec fn idle() -> Controls {
        Controls { async_transmit_armed: false, sync_transmit_armed: false, sync_enabled: false }
    }

    /// The bits as bring-up leaves them.
    pub fn new() -> (controls: Controls)
        ensures
            controls == Controls::idle(),
    {
        Controls { async_transmit_armed: false, sync_transmit_armed: false, sync_enabled: false }
    }

    /// Carries out one command on the bits.
    pub fn apply(&mut self, command: Command)
        ensures
            *final(self) == old(self).after(command),
    {
        match command {
            Command::AsyncArmTransmit => {
                self.async_transmit_armed = true;
            },
            Command::AsyncDisarmTransmit => {
                self.async_transmit_armed = false;
            },
            Command::SyncArmTransmit => {
                self.sync_transmit_armed = true;
            },
            Command::SyncDisarmTransmit => {
                self.sync_transmit_armed = false;
            },
            Command::SyncEnable => {
                self.sync_enabled = true;
            },
            Command::SyncDisable => {
                self.sync_enabled = false;
            },
            Command::AsyncWrite(_) => {},
            Command::AsyncClearOverrun => {},
            Command::SyncWrite(_) => {},
            Command::SyncAwaitIdle => {},
        }
    }
}

/// What the two queues of a bridge hold, each oldest first.
#[verifier::ext_equal]
pub struct Queues {
    /// Units received on the asynchronous side, waiting for the synchronous
    /// peripheral.
    pub to_sync: Seq<u16>,
    /// Units received on the synchronous side, waiting for the asynchronous
    /// peripheral.
    pub to_async: Seq<u16>,
}

impl Queues {
    /// Two queues that hold nothing.
    pub open spec fn empty() -> Queues {
        Queues { to_sync: Seq::empty(), to_async: Seq::empty() }
    }
}

/// What the transmit path of the asynchronous peripheral asks for when the
/// queue towards it holds `outbound`: the oldest unit is written, and the
/// transmit interrupt is disarmed as soon as nothing is left to send.
pub open spec fn async_transmit_commands(outbound: Seq<u16>) -> Seq<Command> {
    if outbound.len() == 0 {
        seq![Command::AsyncDisarmTransmit]
    } else if outbound.len() == 1 {
        seq![Command::AsyncWrite(outbound[0]), Command::AsyncDisarmTransmit]
    } else {
        seq![Command::AsyncWrite(outbound[0])]
    }
}

/// What the receive path of the asynchronous peripheral asks for when a unit
/// arrives and the queue towards the synchronous peripheral holds `onward`:
/// that peripheral is armed and enabled if the queue takes the unit, and
/// nothing is done if the queue is full and the unit is dropped.
pub open spec fn async_receive_commands(onward: Seq<u16>) -> Seq<Command> {
    if onward.len() < CAPACITY {
        seq![Command::SyncArmTransmit, Command::SyncEnable]
    } else {
        Seq::empty()
    }
}

/// What the transmit path of the synchronous peripheral asks for when the
/// queue towards it holds `outbound`. In master mode the peripheral clocks
/// each unit out itself: after the write its transfer is waited for and the
/// peripheral disabled, so that it is enabled for one unit at a time. The
/// transmit interrupt is disarmed as soon as nothing is left to send.
pub open spec fn sync_transmit_commands(outbound: Seq<u16>) -> Seq<Command> {
    if outbound.len() == 0 {
        seq![Command::SyncDisable, Command::SyncDisarmTransmit]
    } else if outbound.len() == 1 {
        seq![
            Command::SyncWrite(outbound[0]),
            Command::SyncAwaitIdle,
            Command::SyncDisable,
            Command::SyncDisarmTransmit,
        ]
    } else {
        seq![Command::SyncWrite(outbound[0]), Command::SyncAwaitIdle, Command::SyncDisable]
    }
}

/// What the receive path of the synchronous peripheral asks for when a unit
/// arrives and the queue towards the asynchronous peripheral holds `onward`:
/// that peripheral is armed if the queue takes the unit, and nothing is done
/// if the queue is full and the unit is dropped.
pub open spec fn sync_receive_commands(onward: Seq<u16>) -> Seq<Command> {
    if onward.len() < CAPACITY {
        seq![Command::AsyncArmTransmit]
    } else {
        Seq::empty()
    }
}

/// The queues once the handler of the asynchronous peripheral has run.
pub open spec fn async_next(queues: Queues, status: AsyncStatus) -> Queues {
    Queues {
        to_sync: after_offer(queues.to_sync, status.received),
        to_async: if status.transmit_ready {
            after_dequeue(queues.to_async)
        } else {
            queues.to_async
        },
    }
}

/// The commands of one run of the handler of the asynchronous peripheral, in
/// order: those of its transmit path, those of its receive path, then the
/// acknowledgement of an overrun.
pub open spec fn async_commands(queues: Queues, status: AsyncStatus) -> Seq<Command> {
    let on_transmit = if status.transmit_ready {
        async_transmit_commands(queues.to_async)
    } else {
        Seq::empty()
    };
    let on_receive = if status.received is Some {
        async_receive_commands(queues.to_sync)
    } else {
        Seq::empty()
    };
    let on_overrun = if status.overrun {
        seq![Command::AsyncClearOverrun]
    } else {
        Seq::empty()
    };
    on_transmit + on_receive + on_overrun
}

/// The queues once the handler of the synchronous peripheral has run.
pub open spec fn sync_next(queues: Queues, status: SyncStatus) -> Queues {
    Queues {
        to_sync: if status.transmit_ready {
            after_dequeue(queues.to_sync)
        } else {
            queues.to_sync
        },
        to_async: after_offer(queues.to_async, status.received),
    }
}

/// The commands of one run of the handler of the synchronous peripheral, in
/// order: those of its transmit path, then those of its receive path.
pub open spec fn sync_commands(queues: Queues, status: SyncStatus) -> Seq<Command> {
    let on_transmit = if status.transmit_ready {
        sync_transmit_commands(queues.to_sync)
    } else {
        Seq::empty()
    };
    let on_receive = if status.received is Some {
        sync_receive_commands(queues.to_async)
    } else {
        Seq::empty()
    };
    on_transmit + on_receive
}

/// The state shared by the two handlers: one queue per direction.
pub struct Bridge {
    to_sync: CircularQueue,
    to_async: CircularQueue,
}

impl View for Bridge {
    type V = Queues;

    closed spec fn view(&self) -> Queues {
        Queues { to_sync: self.to_sync@, to_async: self.to_async@ }
    }
}

impl Bridge {
    /// A bridge with both queues empty.
    pub fn new() -> (bridge: Bridge)
        ensures
            bridge@ == Queues::empty(),
    {
        Bridge { to_sync: CircularQueue::new(), to_async: CircularQueue::new() }
    }

    /// The queue towards the synchronous peripheral.
    pub fn to_sync(&self) -> (queue: &CircularQueue)
        ensures
            queue@ == self@.to_sync,
    {
        &self.to_sync
    }

    /// The queue towards the asynchronous peripheral.
    pub fn to_async(&self) -> (queue: &CircularQueue)
        ensures
            queue@ == self@.to_async,
    {
        &self.to_async
    }

    /// One run of the handler of the asynchronous peripheral. Every
    /// condition in `status` is served. On transmit-ready the oldest unit
    /// that came from the synchronous side is written, and the transmit
    /// interrupt disarmed when nothing is left. A received unit is queued
    /// for the synchronous peripheral, which is armed and enabled if the
    /// queue took the unit; a unit that finds the queue full is dropped. An
    /// overrun is acknowledged. The commands returned are to be carried out
    /// in order. With no condition asserted nothing is asked and nothing
    /// changes.
    pub fn service_async(&mut self, status: AsyncStatus) -> (script: Vec<Command>)
        ensures
            script@ == async_commands(old(self)@, status),
            final(self)@ == async_next(old(self)@, status),
            status.quiet() ==> script@.len() == 0 && final(self)@ == old(self)@,
    {
        let mut script: Vec<Command> = Vec::new();
        if status.transmit_ready {
            match self.to_async.dequeue() {
                Some(unit) => {
                    script.push(Command::AsyncWrite(unit));
                    if self.to_async.is_empty() {
                        script.push(Command::AsyncDisarmTransmit);
                    }
                },
                None => {
                    script.push(Command::AsyncDisarmTransmit);
                },
            }
        }
        let ghost on_transmit = script@;
        match status.received {
            Some(unit) => {
                if self.to_sync.enqueue(unit).is_ok() {
                    script.push(Command::SyncArmTransmit);
                    script.push(Command::SyncEnable);
                }
            },
            None => {},
        }
        proof {
            let on_receive = if status.received is Some {
                async_receive_commands(old(self)@.to_sync)
            } else {
                Seq::empty()
            };
            assert(script@ =~= on_transmit + on_receive);
        }
        if status.overrun {
            script.push(Command::AsyncClearOverrun);
        }
        proof {
            assert(script@ =~= async_commands(old(self)@, status));
        }
        script
    }

    /// One run of the handler of the synchronous peripheral. Every condition
    /// in `status` is served. On transmit-ready the oldest unit that came
    /// from the asynchronous side is written, the end of its transfer is
    /// waited for and the peripheral disabled, and the transmit interrupt
    /// disarmed when nothing is left; with nothing to send the peripheral is
    /// disabled and disarmed. A received unit is queued for the asynchronous
    /// peripheral, which is armed if the queue took the unit; a unit that
    /// finds the queue full is dropped. The commands returned are to be
    /// carried out in order. With no condition asserted nothing is asked and
    /// nothing changes.
    pub fn service_sync(&mut self, status: SyncStatus) -> (script: Vec<Command>)
        ensures
            script@ == sync_commands(old(self)@, status),
            final(self)@ == sync_next(old(self)@, status),
            status.quiet() ==> script@.len() == 0 && final(self)@ == old(self)@,
    {
        let mut script: Vec<Command> = Vec::new();
        if status.transmit_ready {
            match self.to_sync.dequeue() {
                Some(unit) => {
                    script.push(Command::SyncWrite(unit));
                    script.push(Command::SyncAwaitIdle);
                    script.push(Command::SyncDisable);
                    if self.to_sync.is_empty() {
                        script.push(Command::SyncDisarmTransmit);
                    }
                },
                None => {
                    script.push(Command::SyncDisable);
                    script.push(Command::SyncDisarmTransmit);
                },
            }
        }
        let ghost on_transmit = script@;
        match status.received {
            Some(unit) => {
                if self.to_async.enqueue(unit).is_ok() {
                    script.push(Command::AsyncArmTransmit);
                }
            },
            None => {},
        }
        proof {
            assert(script@ =~= sync_commands(old(self)@, status));
        }
        script
    }
}

/// Two runs of commands one after the other are the run of both.
pub proof fn lemma_after_concat(start: Controls, first: Seq<Command>, second: Seq<Command>)
    ensures
        start.after_all(first + second) == start.after_all(first).after_all(second),
    decreases second.len(),
{
    if second.len() == 0 {
        assert(first + second == first);
    } else {
        lemma_after_concat(start, first, second.drop_last());
        assert((first + second).drop_last() == first + second.drop_last());
        assert((first + second).last() == second.last());
    }
}

/// The transmit path of the asynchronous peripheral disarms its transmit
/// interrupt unless more than one unit was queued, and touches no other bit.
proof fn lemma_async_transmit_effect(controls: Controls, outbound: Seq<u16>)
    ensures
        controls.after_all(async_transmit_commands(outbound)) == (Controls {
            async_transmit_armed: controls.async_transmit_armed && outbound.len() > 1,
            ..controls
        }),
{
    reveal_with_fuel(Controls::after_all, 3);
}

/// The receive path of the asynchronous peripheral arms and enables the
/// synchronous peripheral if the queue has room, and touches no other bit.
proof fn lemma_async_receive_effect(controls: Controls, onward: Seq<u16>)
    ensures
        controls.after_all(async_receive_commands(onward)) == (Controls {
            sync_transmit_armed: controls.sync_transmit_armed || onward.len() < CAPACITY,
            sync_enabled: controls.sync_enabled || onward.len() < CAPACITY,
            ..controls
        }),
{
    reveal_with_fuel(Controls::after_all, 3);
}

/// The transmit path of the synchronous peripheral disables it, disarms its
/// transmit interrupt unless more than one unit was queued, and touches no
/// other bit.
proof fn lemma_sync_transmit_effect(controls: Controls, outbound: Seq<u16>)
    ensures
        controls.after_all(sync_transmit_commands(outbound)) == (Controls {
            sync_transmit_armed: controls.sync_transmit_armed && outbound.len() > 1,
            sync_enabled: false,
            ..controls
        }),
{
    reveal_with_fuel(Controls::after_all, 5);
}

/// The receive path of the synchronous peripheral arms the asynchronous
/// peripheral if the queue has room, and touches no other bit.
proof fn lemma_sync_receive_effect(controls: Controls, onward: Seq<u16>)
    ensures
        controls.after_all(sync_receive_commands(onward)) == (Controls {
            async_transmit_armed: controls.async_transmit_armed || onward.len() < CAPACITY,
            ..controls
        }),
{
    reveal_with_fuel(Controls::after_all, 2);
}

/// What one run of the handler of the asynchronous peripheral does to the
/// bits. Its own transmit interrupt is disarmed when it served transmit-ready
/// and at most one unit was queued for it; the synchronous peripheral is
/// armed and enabled when a unit was received and queued for it; nothing else
/// changes.
pub proof fn lemma_async_effect(queues: Queues, status: AsyncStatus, controls: Controls)
    ensures
        controls.after_all(async_commands(queues, status)) == (Controls {
            async_transmit_armed: controls.async_transmit_armed && !(status.transmit_ready
                && queues.to_async.len() <= 1),
            sync_transmit_armed: controls.sync_transmit_armed || (status.received is Some
                && queues.to_sync.len() < CAPACITY),
            sync_enabled: controls.sync_enabled || (status.received is Some && queues.to_sync.len()
                < CAPACITY),
        }),
{
    let on_transmit = if status.transmit_ready {
        async_transmit_commands(queues.to_async)
    } else {
        Seq::empty()
    };
    let on_receive = if status.received is Some {
        async_receive_commands(queues.to_sync)
    } else {
        Seq::empty()
    };
    let on_overrun = if status.overrun {
        seq![Command::AsyncClearOverrun]
    } else {
        Seq::empty()
    };
    let transmitted = controls.after_all(on_transmit);
    let received = transmitted.after_all(on_receive);
    lemma_after_concat(controls, on_transmit + on_receive, on_overrun);
    lemma_after_concat(controls, on_transmit, on_receive);
    if status.transmit_ready {
        lemma_async_transmit_effect(controls, queues.to_async);
    }
    if status.received is Some {
        lemma_async_receive_effect(transmitted, queues.to_sync);
    }
    assert(received.after_all(on_overrun) == received) by {
        reveal_with_fuel(Controls::after_all, 2);
    }
}

/// What one run of the handler of the synchronous peripheral does to the
/// bits. Its own transmit interrupt is disarmed when it served transmit-ready
/// and at most one unit was queued for it; it is disabled whenever it served
/// transmit-ready; the asynchronous peripheral is armed when a unit was
/// received and queued for it; nothing else changes.
pub proof fn lemma_sync_effect(queues: Queues, status: SyncStatus, controls: Controls)
    ensures
        controls.after_all(sync_commands(queues, status)) == (Controls {
            async_transmit_armed: controls.async_transmit_armed || (status.received is Some
                && queues.to_async.len() < CAPACITY),
            sync_transmit_armed: controls.sync_transmit_armed && !(status.transmit_ready
                && queues.to_sync.len() <= 1),
            sync_enabled: controls.sync_enabled && !status.transmit_ready,
        }),
{
    let on_transmit = if status.transmit_ready {
        sync_transmit_commands(queues.to_sync)
    } else {
        Seq::empty()
    };
    let on_receive = if status.received is Some {
        sync_receive_commands(queues.to_async)
    } else {
        Seq::empty()
    };
    let transmitted = controls.after_all(on_transmit);
    lemma_after_concat(controls, on_transmit, on_receive);
    if status.transmit_ready {
        lemma_sync_transmit_effect(controls, queues.to_sync);
    }
    if status.received is Some {
        lemma_sync_receive_effect(transmitted, queues.to_async);
    }
}

/// Flow control: the transmit interrupt of each peripheral is armed exactly
/// when the queue towards that peripheral holds something.
pub open spec fn flow_controlled(queues: Queues, controls: Controls) -> bool {
    &&& controls.async_transmit_armed == (queues.to_async.len() > 0)
    &&& controls.sync_transmit_armed == (queues.to_sync.len() > 0)
}

/// The handler of the asynchronous peripheral keeps flow control: if it held
/// when the handler was entered, it holds once the commands of the run are
/// carried out.
pub proof fn lemma_async_flow_control(queues: Queues, status: AsyncStatus, controls: Controls)
    requires
        flow_controlled(queues, controls),
    ensures
        flow_controlled(
            async_next(queues, status),
            controls.after_all(async_commands(queues, status)),
        ),
{
    lemma_async_effect(queues, status, controls);
}

/// The handler of the synchronous peripheral keeps flow control: if it held
/// when the handler was entered, it holds once the commands of the run are
/// carried out.
pub proof fn lemma_sync_flow_control(queues: Queues, status: SyncStatus, controls: Controls)
    requires
        flow_controlled(queues, controls),
    ensures
        flow_controlled(
            sync_next(queues, status),
            controls.after_all(sync_commands(queues, status)),
        ),
{
    lemma_sync_effect(queues, status, controls);
}

/// Clock sequencing in master mode: whenever the handler of the synchronous
/// peripheral serves transmit-ready, it leaves the peripheral disabled, so
/// that the clock runs for the one unit written and no longer.
pub proof fn lemma_master_left_disabled(queues: Queues, status: SyncStatus, controls: Controls)
    requires
        status.transmit_ready,
    ensures
        !controls.after_all(sync_commands(queues, status)).sync_enabled,
{
    lemma_sync_effect(queues, status, controls);
}

/// One handler run: which handler ran, and what its peripheral signalled.
pub enum Event {
    /// The handler of the asynchronous peripheral ran.
    Async(AsyncStatus),
    /// The handler of the synchronous peripheral ran.
    Sync(SyncStatus),
}

/// The queues together with the control bits.
#[verifier::ext_equal]
pub struct State {
    /// What the queues hold.
    pub queues: Queues,
    /// How the bits stand.
    pub controls: Controls,
}

/// The state that one handler run leads to, once its commands are carried
/// out.
pub open spec fn step(state: State, event: Event) -> State {
    match event {
        Event::Async(status) => State {
            queues: async_next(state.queues, status),
            controls: state.controls.after_all(async_commands(state.queues, status)),
        },
        Event::Sync(status) => State {
            queues: sync_next(state.queues, status),
            controls: state.controls.after_all(sync_commands(state.queues, status)),
        },
    }
}

/// The state after the handler runs `events`, the first of which found the
/// queues empty and the bits as bring-up leaves them.
pub open spec fn run(events: Seq<Event>) -> State
    decreases events.len(),
{
    if events.len() == 0 {
        State { queues: Queues::empty(), controls: Controls::idle() }
    } else {
        step(run(events.drop_last()), events.last())
    }
}

/// Whatever the peripherals signal and in whatever order the handlers run,
/// at every handler exit flow control holds, neither queue holds more than
/// [`CAPACITY`] units, and the synchronous peripheral is enabled only while a
/// unit waits for it.
pub proof fn lemma_invariants_at_every_exit(events: Seq<Event>)
    ensures
        flow_controlled(run(events).queues, run(events).controls),
        run(events).queues.to_sync.len() <= CAPACITY,
        run(events).queues.to_async.len() <= CAPACITY,
        run(events).controls.sync_enabled ==> run(events).queues.to_sync.len() > 0,
    decreases events.len(),
{
    if events.len() > 0 {
        lemma_invariants_at_every_exit(events.drop_last());
        let before = run(events.drop_last());
        match events.last() {
            Event::Async(status) => {
                lemma_async_effect(before.queues, status, before.controls);
            },
            Event::Sync(status) => {
                lemma_sync_effect(before.queues, status, before.controls);
            },
        }
    }
}

/// The units that a run of commands writes to the asynchronous peripheral,
/// in order.
pub open spec fn written_to_async(commands: Seq<Command>) -> Seq<u16>
    decreases commands.len(),
{
    if commands.len() == 0 {
        Seq::empty()
    } else {
        let earlier = written_to_async(commands.drop_last());
        match commands.last() {
            Command::AsyncWrite(unit) => earlier.push(unit),
            _ => earlier,
        }
    }
}

/// The units that a run of commands writes to the synchronous peripheral, in
/// order.
pub open spec fn written_to_sync(commands: Seq<Command>) -> Seq<u16>
    decreases commands.len(),
{
    if commands.len() == 0 {
        Seq::empty()
    } else {
        let earlier = written_to_sync(commands.drop_last());
        match commands.last() {
            Command::SyncWrite(unit) => earlier.push(unit),
            _ => earlier,
        }
    }
}

/// The units that crossed a bridge, each list in order.
#[verifier::ext_equal]
pub struct Traffic {
    /// Received from the asynchronous peripheral and taken by the queue
    /// towards the synchronous one.
    pub taken_for_sync: Seq<u16>,
    /// Written to the synchronous peripheral.
    pub sent_to_sync: Seq<u16>,
    /// Received from the synchronous peripheral and taken by the queue
    /// towards the asynchronous one.
    pub taken_for_async: Seq<u16>,
    /// Written to the asynchronous peripheral.
    pub sent_to_async: Seq<u16>,
}

/// The list of units taken by a queue, once a receive path has offered it
/// `received` while it held `queued`. A unit that finds the queue full is not
/// taken.
pub open spec fn taken_after(taken: Seq<u16>, queued: Seq<u16>, received: Option<u16>) -> Seq<
    u16,
> {
    match received {
        Some(unit) => if queued.len() < CAPACITY {
            taken.push(unit)
        } else {
            taken
        },
        None => taken,
    }
}

/// The units that crossed the bridge over the handler runs `events`.
pub open spec fn traffic(events: Seq<Event>) -> Traffic
    decreases events.len(),
{
    if events.len() == 0 {
        Traffic {
            taken_for_sync: Seq::empty(),
            sent_to_sync: Seq::empty(),
            taken_for_async: Seq::empty(),
            sent_to_async: Seq::empty(),
        }
    } else {
        let earlier = traffic(events.drop_last());
        let queues = run(events.drop_last()).queues;
        match events.last() {
            Event::Async(status) => Traffic {
                taken_for_sync: taken_after(earlier.taken_for_sync, queues.to_sync, status.received),
                sent_to_sync: earlier.sent_to_sync + written_to_sync(
                    async_commands(queues, status),
                ),
                taken_for_async: earlier.taken_for_async,
                sent_to_async: earlier.sent_to_async + written_to_async(
                    async_commands(queues, status),
                ),
            },
            Event::Sync(status) => Traffic {
                taken_for_sync: earlier.taken_for_sync,
                sent_to_sync: earlier.sent_to_sync + written_to_sync(sync_commands(queues, status)),
                taken_for_async: taken_after(
                    earlier.taken_for_async,
                    queues.to_async,
                    status.received,
                ),
                sent_to_async: earlier.sent_to_async + written_to_async(
                    sync_commands(queues, status),
                ),
            },
        }
    }
}

/// What two runs of commands write to the asynchronous peripheral is what the
/// first writes, then what the second writes.
pub proof fn lemma_written_to_async_concat(first: Seq<Command>, second: Seq<Command>)
    ensures
        written_to_async(first + second) == written_to_async(first) + written_to_async(second),
    decreases second.len(),
{
    if second.len() == 0 {
        assert(first + second == first);
    } else {
        lemma_written_to_async_concat(first, second.drop_last());
        assert((first + second).drop_last() == first + second.drop_last());
        assert((first + second).last() == second.last());
    }
}

/// What two runs of commands write to the synchronous peripheral is what the
/// first writes, then what the second writes.
pub proof fn lemma_written_to_sync_concat(first: Seq<Command>, second: Seq<Command>)
    ensures
        written_to_sync(first + second) == written_to_sync(first) + written_to_sync(second),
    decreases second.len(),
{
    if second.len() == 0 {
        assert(first + second == first);
    } else {
        lemma_written_to_sync_concat(first, second.drop_last());
        assert((first + second).drop_last() == first + second.drop_last());
        assert((first + second).last() == second.last());
    }
}

/// One run of the handler of the asynchronous peripheral writes to that
/// peripheral the oldest unit queued for it, when transmit-ready is asserted
/// and there is such a unit. It writes nothing else, and nothing to the
/// synchronous peripheral.
pub proof fn lemma_written_by_async_run(queues: Queues, status: AsyncStatus)
    ensures
        written_to_async(async_commands(queues, status)) == (if status.transmit_ready
            && queues.to_async.len() > 0 {
            seq![queues.to_async[0]]
        } else {
            Seq::empty()
        }),
        written_to_sync(async_commands(queues, status)) == Seq::<u16>::empty(),
{
    let on_transmit = if status.transmit_ready {
        async_transmit_commands(queues.to_async)
    } else {
        Seq::empty()
    };
    let on_receive = if status.received is Some {
        async_receive_commands(queues.to_sync)
    } else {
        Seq::empty()
    };
    let on_overrun = if status.overrun {
        seq![Command::AsyncClearOverrun]
    } else {
        Seq::empty()
    };
    lemma_written_to_async_concat(on_transmit + on_receive, on_overrun);
    lemma_written_to_async_concat(on_transmit, on_receive);
    lemma_written_to_sync_concat(on_transmit + on_receive, on_overrun);
    lemma_written_to_sync_concat(on_transmit, on_receive);
    reveal_with_fuel(written_to_async, 3);
    reveal_with_fuel(written_to_sync, 3);
}

/// One run of the handler of the synchronous peripheral writes to that
/// peripheral the oldest unit queued for it, when transmit-ready is asserted
/// and there is such a unit. It writes nothing else, and nothing to the
/// asynchronous peripheral.
pub proof fn lemma_written_by_sync_run(queues: Queues, status: SyncStatus)
    ensures
        written_to_sync(sync_commands(queues, status)) == (if status.transmit_ready
            && queues.to_sync.len() > 0 {
            seq![queues.to_sync[0]]
        } else {
            Seq::empty()
        }),
        written_to_async(sync_commands(queues, status)) == Seq::<u16>::empty(),
{
    let on_transmit = if status.transmit_ready {
        sync_transmit_commands(queues.to_sync)
    } else {
        Seq::empty()
    };
    let on_receive = if status.received is Some {
        sync_receive_commands(queues.to_async)
    } else {
        Seq::empty()
    };
    lemma_written_to_async_concat(on_transmit, on_receive);
    lemma_written_to_sync_concat(on_transmit, on_receive);
    reveal_with_fuel(written_to_async, 5);
    reveal_with_fuel(written_to_sync, 5);
}

/// The bridge relays in order, in both directions: over any handler runs, the
/// units written to a peripheral, followed by the units still queued for it,
/// are the units that the queue towards it took, in the order in which they
/// were received on the other side. Nothing is sent twice, nothing is sent
/// that was not received, and only a unit that found its queue full is lost.
pub proof fn lemma_relay_in_order(events: Seq<Event>)
    ensures
        traffic(events).sent_to_sync + run(events).queues.to_sync == traffic(
            events,
        ).taken_for_sync,
        traffic(events).sent_to_async + run(events).queues.to_async == traffic(
            events,
        ).taken_for_async,
    decreases events.len(),
{
    if events.len() > 0 {
        lemma_relay_in_order(events.drop_last());
        let queues = run(events.drop_last()).queues;
        match events.last() {
            Event::Async(status) => {
                lemma_written_by_async_run(queues, status);
            },
            Event::Sync(status) => {
                lemma_written_by_sync_run(queues, status);
            },
        }
        assert(traffic(events).sent_to_sync + run(events).queues.to_sync =~= traffic(
            events,
        ).taken_for_sync);
        assert(traffic(events).sent_to_async + run(events).queues.to_async =~= traffic(
            events,
        ).taken_for_async);
    }
}

} // verus!
