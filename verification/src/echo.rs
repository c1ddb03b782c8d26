//! The loopback relay on one slave-mode peripheral: every unit received is
//! queued and sent back when the peripheral is next ready to transmit.

use crate::queue::{after_dequeue, after_offer, CircularQueue, CAPACITY};
use vstd::prelude::*;

verus! {

/// The unit that the peripheral sends by itself when the master clocks a
/// transfer and nothing is staged. Bring-up programs it; the relay accepts it
/// on the wire and repairs nothing.
pub const UNDERRUN_PLACEHOLDER: u16 = 0x3f;

/// What the peripheral signals when its handler is entered.
#[derive(Clone, Copy, Debug, PartialEq, Eq, Structural)]
pub struct Status {
    /// The unit read from the receive register, when receive-ready was
    /// asserted. Reading it is what clears that condition.
    pub received: Option<u16>,
    /// Whether transmit-ready is asserted.
    pub transmit_ready: bool,
    /// Whether an underrun is flagged.
    pub underrun: bool,
}

impl Status {
    /// No condition is asserted.
    pub open spec fn quiet(self) -> bool {
        self.received is None && !self.transmit_ready && !self.underrun
    }
}

/// One operation on the peripheral's registers.
#[derive(Clone, Copy, Debug, PartialEq, Eq, Structural)]
pub enum Command {
    /// Write the unit to the transmit register.
    Write(u16),
    /// Set the transmit-interrupt-enable bit.
    ArmTransmit,
    /// Clear the transmit-interrupt-enable bit.
    DisarmTransmit,
    /// Acknowledge the underrun by writing its clear-flag.
    ClearUnderrun,
}

/// The one control bit of the peripheral that the relay sets and clears.
#[derive(Clone, Copy, Debug, PartialEq, Eq, Structural)]
pub struct Controls {
    /// The transmit-interrupt-enable bit.
    pub transmit_armed: bool,
}

impl Controls {
    /// The bit after one command.
    pub open spec fn after(self, command: Command) -> Controls {
        match command {
            Command::ArmTransmit => Controls { transmit_armed: true },
            Command::DisarmTransmit => Controls { transmit_armed: false },
            Command::Write(_) => self,
            Command::ClearUnderrun => self,
        }
    }

    /// The bit after a run of commands, carried out first to last.
    pub open spec fn after_all(self, commands: Seq<Command>) -> Controls
        decreases commands.len(),
    {
        if commands.len() == 0 {
            self
        } else {
            self.after_all(commands.drop_last()).after(commands.last())
        }
    }

    /// The bit as bring-up leaves it: the transmit interrupt is not armed.
    pub open spec fn idle() -> Controls {
        Controls { transmit_armed: false }
    }

    /// The bit as bring-up leaves it.
    pub fn new() -> (controls: Controls)
        ensures
            controls == Controls::idle(),
    {
        Controls { transmit_armed: false }
    }

    /// Carries out one command on the bit.
    pub fn apply(&mut self, command: Command)
        ensures
            *final(self) == old(self).after(command),
    {
        match command {
            Command::ArmTransmit => {
                self.transmit_armed = true;
            },
            Command::DisarmTransmit => {
                self.transmit_armed = false;
            },
            Command::Write(_) => {},
            Command::ClearUnderrun => {},
        }
    }
}

/// What the receive path asks for when a unit arrives and the queue holds
/// `queued`: the transmit interrupt is armed if the queue takes the unit, and
/// nothing is done if the queue is full and the unit is dropped.
pub open spec fn receive_commands(queued: Seq<u16>) -> Seq<Command> {
    if queued.len() < CAPACITY {
        seq![Command::ArmTransmit]
    } else {
        Seq::empty()
    }
}

/// What the transmit path asks for when the queue holds `queued`: the oldest
/// unit is written, and the transmit interrupt is disarmed as soon as nothing
/// is left to send.
pub open spec fn transmit_commands(queued: Seq<u16>) -> Seq<Command> {
    if queued.len() == 0 {
        seq![Command::DisarmTransmit]
    } else if queued.len() == 1 {
        seq![Command::Write(queued[0]), Command::DisarmTransmit]
    } else {
        seq![Command::Write(queued[0])]
    }
}

/// The queue once the handler has run: the receive path first, then the
/// transmit path.
pub open spec fn next(queued: Seq<u16>, status: Status) -> Seq<u16> {
    let staged = after_offer(queued, status.received);
    if status.transmit_ready {
        after_dequeue(staged)
    } else {
        staged
    }
}

/// The commands of one handler run, in order: those of the receive path,
/// those of the transmit path, then the acknowledgement of an underrun.
pub open spec fn commands(queued: Seq<u16>, status: Status) -> Seq<Command> {
    let on_receive = if status.received is Some {
        receive_commands(queued)
    } else {
        Seq::empty()
    };
    let on_transmit = if status.transmit_ready {
        transmit_commands(after_offer(queued, status.received))
    } else {
        Seq::empty()
    };
    let on_underrun = if status.underrun {
        seq![Command::ClearUnderrun]
    } else {
        Seq::empty()
    };
    on_receive + on_transmit + on_underrun
}

/// The state of the echo relay: the units received and not yet sent back.
pub struct Echo {
    queue: CircularQueue,
}

impl View for Echo {
    type V = Seq<u16>;

    closed spec fn view(&self) -> Seq<u16> {
        self.queue@
    }
}

impl Echo {
    /// A relay with nothing queued.
    pub fn new() -> (echo: Echo)
        ensures
            echo@ == Seq::<u16>::empty(),
    {
        Echo { queue: CircularQueue::new() }
    }

    /// The queue of units waiting to be sent back.
    pub fn queue(&self) -> (queue: &CircularQueue)
        ensures
            queue@ == self@,
    {
        &self.queue
    }

    /// One run of the interrupt handler. Every condition in `status` is
    /// served: a received unit is queued, and the transmit interrupt armed if
    /// the queue took it; on transmit-ready the oldest unit is written, and
    /// the transmit interrupt disarmed when nothing is left; an underrun is
    /// acknowledged. The commands returned are to be carried out on the
    /// peripheral in order. With no condition asserted nothing is asked and
    /// nothing changes.
    pub fn service(&mut self, status: Status) -> (script: Vec<Command>)
        ensures
            script@ == commands(old(self)@, status),
            final(self)@ == next(old(self)@, status),
            status.quiet() ==> script@.len() == 0 && final(self)@ == old(self)@,
    {
        let mut script: Vec<Command> = Vec::new();
        match status.received {
            Some(unit) => {
                if self.queue.enqueue(unit).is_ok() {
                    script.push(Command::ArmTransmit);
                }
            },
            None => {},
        }
        let ghost on_receive = script@;
        if status.transmit_ready {
            match self.queue.dequeue() {
                Some(unit) => {
                    script.push(Command::Write(unit));
                    if self.queue.is_empty() {
                        script.push(Command::DisarmTransmit);
                    }
                },
                None => {
                    script.push(Command::DisarmTransmit);
                },
            }
        }
        proof {
            let on_transmit = if status.transmit_ready {
                transmit_commands(after_offer(old(self)@, status.received))
            } else {
                Seq::empty()
            };
            assert(script@ =~= on_receive + on_transmit);
        }
        if status.underrun {
            script.push(Command::ClearUnderrun);
        }
        proof {
            assert(script@ =~= commands(old(self)@, status));
        }
        script
    }
}

/// Two runs of commands one after the other are the run of both.
pub proof fn lemma_after_concat(start: Controls, first: Seq<Command>, second: Seq<Command>)
    ensures
        start.after_all(first + second) == start.after_all(first).after_all(second),
    decreases second.len(),
{
    if second.len() == 0 {
        assert(first + second == first);
    } else {
        lemma_after_concat(start, first, second.drop_last());
        assert((first + second).drop_last() == first + second.drop_last());
        assert((first + second).last() == second.last());
    }
}

/// Flow control is kept by every handler run: if the transmit interrupt was
/// armed exactly when the queue held something, then once the commands of
/// the run are carried out it is again armed exactly when the queue holds
/// something.
pub proof fn lemma_flow_control(queued: Seq<u16>, status: Status, controls: Controls)
    requires
        controls.transmit_armed == (queued.len() > 0),
    ensures
        controls.after_all(commands(queued, status)).transmit_armed == (next(queued, status).len()
            > 0),
{
    let on_receive = if status.received is Some {
        receive_commands(queued)
    } else {
        Seq::empty()
    };
    let on_transmit = if status.transmit_ready {
        transmit_commands(after_offer(queued, status.received))
    } else {
        Seq::empty()
    };
    let on_underrun = if status.underrun {
        seq![Command::ClearUnderrun]
    } else {
        Seq::empty()
    };
    lemma_after_concat(controls, on_receive + on_transmit, on_underrun);
    lemma_after_concat(controls, on_receive, on_transmit);
    reveal_with_fuel(Controls::after_all, 3);
}

/// The queue together with the control bit.
#[verifier::ext_equal]
pub struct State {
    /// What the queue holds, oldest first.
    pub queued: Seq<u16>,
    /// How the bit stands.
    pub controls: Controls,
}

/// The state after the handler runs that found the peripheral signalling
/// `statuses`, the first of which found the queue empty and the bit as
/// bring-up leaves it, each run with its commands carried out.
pub open spec fn run(statuses: Seq<Status>) -> State
    decreases statuses.len(),
{
    if statuses.len() == 0 {
        State { queued: Seq::empty(), controls: Controls::idle() }
    } else {
        let before = run(statuses.drop_last());
        State {
            queued: next(before.queued, statuses.last()),
            controls: before.controls.after_all(commands(before.queued, statuses.last())),
        }
    }
}

/// Whatever the peripheral signals, at every handler exit the transmit
/// interrupt is armed exactly when the queue holds something, and the queue
/// holds no more than [`CAPACITY`] units.
pub proof fn lemma_invariants_at_every_exit(statuses: Seq<Status>)
    ensures
        run(statuses).controls.transmit_armed == (run(statuses).queued.len() > 0),
        run(statuses).queued.len() <= CAPACITY,
    decreases statuses.len(),
{
    if statuses.len() > 0 {
        lemma_invariants_at_every_exit(statuses.drop_last());
        let before = run(statuses.drop_last());
        lemma_flow_control(before.queued, statuses.last(), before.controls);
    }
}

/// The units that a run of commands writes to the transmit register, in
/// order.
pub open spec fn written(commands: Seq<Command>) -> Seq<u16>
    decreases commands.len(),
{
    if commands.len() == 0 {
        Seq::empty()
    } else {
        let earlier = written(commands.drop_last());
        match commands.last() {
            Command::Write(unit) => earlier.push(unit),
            _ => earlier,
        }
    }
}

/// The units that the queue took over the handler runs `statuses`, in order.
/// A unit that found the queue full is not among them.
pub open spec fn taken(statuses: Seq<Status>) -> Seq<u16>
    decreases statuses.len(),
{
    if statuses.len() == 0 {
        Seq::empty()
    } else {
        let earlier = taken(statuses.drop_last());
        match statuses.last().received {
            Some(unit) => if run(statuses.drop_last()).queued.len() < CAPACITY {
                earlier.push(unit)
            } else {
                earlier
            },
            None => earlier,
        }
    }
}

/// The units that the handler runs `statuses` wrote to the transmit register,
/// in order.
pub open spec fn sent(statuses: Seq<Status>) -> Seq<u16>
    decreases statuses.len(),
{
    if statuses.len() == 0 {
        Seq::empty()
    } else {
        sent(statuses.drop_last()) + written(
            commands(run(statuses.drop_last()).queued, statuses.last()),
        )
    }
}

/// What two runs of commands write is what the first writes, then what the
/// second writes.
pub proof fn lemma_written_concat(first: Seq<Command>, second: Seq<Command>)
    ensures
        written(first + second) == written(first) + written(second),
    decreases second.len(),
{
    if second.len() == 0 {
        assert(first + second == first);
    } else {
        lemma_written_concat(first, second.drop_last());
        assert((first + second).drop_last() == first + second.drop_last());
        assert((first + second).last() == second.last());
    }
}

/// One handler run writes the oldest unit of the queue, as the receive path
/// left it, when transmit-ready is asserted and there is such a unit, and
/// writes nothing else.
pub proof fn lemma_written_by_one_run(queued: Seq<u16>, status: Status)
    ensures
        written(commands(queued, status)) == (if status.transmit_ready && after_offer(
            queued,
            status.received,
        ).len() > 0 {
            seq![after_offer(queued, status.received)[0]]
        } else {
            Seq::empty()
        }),
{
    let on_receive = if status.received is Some {
        receive_commands(queued)
    } else {
        Seq::empty()
    };
    let on_transmit = if status.transmit_ready {
        transmit_commands(after_offer(queued, status.received))
    } else {
        Seq::empty()
    };
    let on_underrun = if status.underrun {
        seq![Command::ClearUnderrun]
    } else {
        Seq::empty()
    };
    lemma_written_concat(on_receive + on_transmit, on_underrun);
    lemma_written_concat(on_receive, on_transmit);
    reveal_with_fuel(written, 3);
}

/// The relay echoes in order: over any handler runs, the units written to
/// the transmit register, followed by the units still queued, are the units
/// that the queue took, in the order in which they were received. Nothing is
/// sent twice, nothing is sent that was not received, and only a unit that
/// found the queue full is lost.
pub proof fn lemma_echo_in_order(statuses: Seq<Status>)
    ensures
        sent(statuses) + run(statuses).queued == taken(statuses),
    decreases statuses.len(),
{
    if statuses.len() > 0 {
        lemma_echo_in_order(statuses.drop_last());
        let before = run(statuses.drop_last()).queued;
        lemma_written_by_one_run(before, statuses.last());
        assert(sent(statuses) + run(statuses).queued =~= taken(statuses));
    }
}

} // verus!
