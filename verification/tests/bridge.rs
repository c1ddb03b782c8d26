use serial_relay::bridge::{AsyncStatus, Bridge, Command, Controls, SyncStatus};

const ASYNC_QUIET: AsyncStatus =
    AsyncStatus { transmit_ready: false, received: None, overrun: false };
const ASYNC_TRANSMIT_READY: AsyncStatus =
    AsyncStatus { transmit_ready: true, received: None, overrun: false };
const SYNC_QUIET: SyncStatus = SyncStatus { transmit_ready: false, received: None };
const SYNC_TRANSMIT_READY: SyncStatus = SyncStatus { transmit_ready: true, received: None };

fn async_received(unit: u16) -> AsyncStatus {
    AsyncStatus { transmit_ready: false, received: Some(unit), overrun: false }
}

fn sync_received(unit: u16) -> SyncStatus {
    SyncStatus { transmit_ready: false, received: Some(unit) }
}

fn carry_out(controls: &mut Controls, commands: &[Command]) {
    for command in commands {
        controls.apply(*command);
    }
}

fn written(commands: &[Command]) -> Vec<Command> {
    commands
        .iter()
        .copied()
        .filter(|command| matches!(command, Command::AsyncWrite(_) | Command::SyncWrite(_)))
        .collect()
}

fn flow_controlled(bridge: &Bridge, controls: &Controls) -> bool {
    controls.async_transmit_armed == !bridge.to_async().is_empty()
        && controls.sync_transmit_armed == !bridge.to_sync().is_empty()
}

#[test]
fn new_bridge_has_two_empty_queues() {
    let bridge = Bridge::new();
    assert!(bridge.to_sync().is_empty());
    assert!(bridge.to_async().is_empty());
    assert_eq!(bridge.to_sync().len(), 0);
    assert_eq!(bridge.to_async().len(), 0);
}

#[test]
fn three_units_received_on_the_async_side_are_queued_in_order() {
    let mut bridge = Bridge::new();
    let mut controls = Controls::new();

    let commands = bridge.service_async(async_received(0x41));
    carry_out(&mut controls, &commands);
    assert_eq!(bridge.to_sync().to_vec(), vec![0x41]);
    assert!(controls.sync_transmit_armed);

    let commands = bridge.service_async(async_received(0x42));
    carry_out(&mut controls, &commands);
    assert_eq!(bridge.to_sync().to_vec(), vec![0x41, 0x42]);
    assert!(controls.sync_transmit_armed);

    let commands = bridge.service_async(async_received(0x43));
    carry_out(&mut controls, &commands);
    assert_eq!(bridge.to_sync().to_vec(), vec![0x41, 0x42, 0x43]);
    assert!(controls.sync_transmit_armed);

    assert!(bridge.to_async().is_empty());
    assert!(!controls.async_transmit_armed);
}

#[test]
fn three_transmit_ready_events_drain_the_queue_in_order() {
    let mut bridge = Bridge::new();
    let mut controls = Controls::new();
    for unit in [0x41u16, 0x42, 0x43] {
        let commands = bridge.service_async(async_received(unit));
        carry_out(&mut controls, &commands);
    }

    let first = bridge.service_sync(SYNC_TRANSMIT_READY);
    carry_out(&mut controls, &first);
    assert_eq!(written(&first), vec![Command::SyncWrite(0x41)]);
    assert!(controls.sync_transmit_armed);

    let second = bridge.service_sync(SYNC_TRANSMIT_READY);
    carry_out(&mut controls, &second);
    assert_eq!(written(&second), vec![Command::SyncWrite(0x42)]);
    assert!(controls.sync_transmit_armed);

    let third = bridge.service_sync(SYNC_TRANSMIT_READY);
    carry_out(&mut controls, &third);
    assert_eq!(written(&third), vec![Command::SyncWrite(0x43)]);
    assert!(!controls.sync_transmit_armed);

    assert!(bridge.to_sync().is_empty());
}

#[test]
fn async_receive_arms_and_enables_the_sync_peripheral() {
    let mut bridge = Bridge::new();
    let commands = bridge.service_async(async_received(0x55));
    assert_eq!(commands, vec![Command::SyncArmTransmit, Command::SyncEnable]);
    assert_eq!(bridge.to_sync().to_vec(), vec![0x55]);
    assert!(bridge.to_async().is_empty());
}

#[test]
fn sync_receive_arms_the_async_peripheral() {
    let mut bridge = Bridge::new();
    let commands = bridge.service_sync(sync_received(0x66));
    assert_eq!(commands, vec![Command::AsyncArmTransmit]);
    assert_eq!(bridge.to_async().to_vec(), vec![0x66]);
    assert!(bridge.to_sync().is_empty());
}

#[test]
fn async_transmit_writes_and_disarms_on_the_last_unit() {
    let mut bridge = Bridge::new();
    bridge.service_sync(sync_received(0x10));
    bridge.service_sync(sync_received(0x20));

    let commands = bridge.service_async(ASYNC_TRANSMIT_READY);
    assert_eq!(commands, vec![Command::AsyncWrite(0x10)]);
    assert_eq!(bridge.to_async().to_vec(), vec![0x20]);

    let commands = bridge.service_async(ASYNC_TRANSMIT_READY);
    assert_eq!(
        commands,
        vec![Command::AsyncWrite(0x20), Command::AsyncDisarmTransmit]
    );
    assert!(bridge.to_async().is_empty());
}

#[test]
fn async_transmit_with_nothing_queued_disarms() {
    let mut bridge = Bridge::new();
    let commands = bridge.service_async(ASYNC_TRANSMIT_READY);
    assert_eq!(commands, vec![Command::AsyncDisarmTransmit]);
    assert!(bridge.to_async().is_empty());
    assert!(bridge.to_sync().is_empty());
}

#[test]
fn sync_transmit_clocks_one_unit_and_disables() {
    let mut bridge = Bridge::new();
    bridge.service_async(async_received(0x31));
    bridge.service_async(async_received(0x32));

    let commands = bridge.service_sync(SYNC_TRANSMIT_READY);
    assert_eq!(
        commands,
        vec![
            Command::SyncWrite(0x31),
            Command::SyncAwaitIdle,
            Command::SyncDisable,
        ]
    );
    assert_eq!(bridge.to_sync().to_vec(), vec![0x32]);

    let commands = bridge.service_sync(SYNC_TRANSMIT_READY);
    assert_eq!(
        commands,
        vec![
            Command::SyncWrite(0x32),
            Command::SyncAwaitIdle,
            Command::SyncDisable,
            Command::SyncDisarmTransmit,
        ]
    );
    assert!(bridge.to_sync().is_empty());
}

#[test]
fn sync_transmit_with_nothing_queued_disables_and_disarms() {
    let mut bridge = Bridge::new();
    let commands = bridge.service_sync(SYNC_TRANSMIT_READY);
    assert_eq!(commands, vec![Command::SyncDisable, Command::SyncDisarmTransmit]);
    assert!(bridge.to_sync().is_empty());
    assert!(bridge.to_async().is_empty());
}

#[test]
fn overrun_is_acknowledged_and_nothing_else_happens() {
    let mut bridge = Bridge::new();
    bridge.service_sync(sync_received(0x77));
    let commands = bridge.service_async(AsyncStatus {
        transmit_ready: false,
        received: None,
        overrun: true,
    });
    assert_eq!(commands, vec![Command::AsyncClearOverrun]);
    assert_eq!(bridge.to_async().to_vec(), vec![0x77]);
    assert!(bridge.to_sync().is_empty());
}

#[test]
fn async_handler_serves_every_condition_in_one_run() {
    let mut bridge = Bridge::new();
    bridge.service_sync(sync_received(0x0a));
    let commands = bridge.service_async(AsyncStatus {
        transmit_ready: true,
        received: Some(0x0b),
        overrun: true,
    });
    assert_eq!(
        commands,
        vec![
            Command::AsyncWrite(0x0a),
            Command::AsyncDisarmTransmit,
            Command::SyncArmTransmit,
            Command::SyncEnable,
            Command::AsyncClearOverrun,
        ]
    );
    assert!(bridge.to_async().is_empty());
    assert_eq!(bridge.to_sync().to_vec(), vec![0x0b]);
}

#[test]
fn sync_handler_serves_every_condition_in_one_run() {
    let mut bridge = Bridge::new();
    bridge.service_async(async_received(0x0c));
    let commands = bridge.service_sync(SyncStatus { transmit_ready: true, received: Some(0x0d) });
    assert_eq!(
        commands,
        vec![
            Command::SyncWrite(0x0c),
            Command::SyncAwaitIdle,
            Command::SyncDisable,
            Command::SyncDisarmTransmit,
            Command::AsyncArmTransmit,
        ]
    );
    assert!(bridge.to_sync().is_empty());
    assert_eq!(bridge.to_async().to_vec(), vec![0x0d]);
}

#[test]
fn a_unit_that_finds_the_queue_full_is_dropped_without_a_command() {
    let mut bridge = Bridge::new();
    for unit in 0..16u16 {
        let commands = bridge.service_async(async_received(unit));
        assert_eq!(commands, vec![Command::SyncArmTransmit, Command::SyncEnable]);
    }
    for unit in 16..20u16 {
        let commands = bridge.service_async(async_received(unit));
        assert_eq!(commands, Vec::<Command>::new());
        assert_eq!(bridge.to_sync().len(), 16);
    }
    assert_eq!(bridge.to_sync().to_vec(), (0..16u16).collect::<Vec<u16>>());

    for unit in 0..16u16 {
        let commands = bridge.service_sync(sync_received(unit));
        assert_eq!(commands, vec![Command::AsyncArmTransmit]);
    }
    let commands = bridge.service_sync(sync_received(16));
    assert_eq!(commands, Vec::<Command>::new());
    assert_eq!(bridge.to_async().to_vec(), (0..16u16).collect::<Vec<u16>>());
}

#[test]
fn a_quiet_peripheral_changes_nothing_however_often_it_is_served() {
    let mut bridge = Bridge::new();
    bridge.service_async(async_received(0x01));
    bridge.service_sync(sync_received(0x02));
    bridge.service_sync(sync_received(0x03));
    for _ in 0..10 {
        assert_eq!(bridge.service_async(ASYNC_QUIET), Vec::<Command>::new());
        assert_eq!(bridge.service_sync(SYNC_QUIET), Vec::<Command>::new());
        assert_eq!(bridge.to_sync().to_vec(), vec![0x01]);
        assert_eq!(bridge.to_async().to_vec(), vec![0x02, 0x03]);
    }
}

#[test]
fn a_quiet_peripheral_changes_nothing_on_an_empty_bridge() {
    let mut bridge = Bridge::new();
    for _ in 0..3 {
        assert_eq!(bridge.service_async(ASYNC_QUIET), Vec::<Command>::new());
        assert_eq!(bridge.service_sync(SYNC_QUIET), Vec::<Command>::new());
    }
    assert!(bridge.to_sync().is_empty());
    assert!(bridge.to_async().is_empty());
}

#[test]
fn flow_control_holds_at_every_handler_exit() {
    let mut bridge = Bridge::new();
    let mut controls = Controls::new();
    assert!(flow_controlled(&bridge, &controls));
    let mut seed: u32 = 0x2545_f491;
    for _ in 0..2000 {
        seed = seed.wrapping_mul(1_664_525).wrapping_add(1_013_904_223);
        let bits = seed >> 16;
        let unit = (bits & 0xff) as u16;
        let received = if bits & 0x100 != 0 { Some(unit) } else { None };
        let transmit_ready = bits & 0x200 != 0;
        let commands = if bits & 0x400 != 0 {
            bridge.service_async(AsyncStatus {
                transmit_ready,
                received,
                overrun: bits & 0x800 != 0,
            })
        } else {
            bridge.service_sync(SyncStatus { transmit_ready, received })
        };
        carry_out(&mut controls, &commands);
        assert!(flow_controlled(&bridge, &controls));
        assert!(bridge.to_sync().len() <= 16);
        assert!(bridge.to_async().len() <= 16);
    }
}

#[test]
fn flow_control_holds_when_a_queue_fills_and_drains() {
    let mut bridge = Bridge::new();
    let mut controls = Controls::new();
    for unit in 0..20u16 {
        let commands = bridge.service_async(async_received(unit));
        carry_out(&mut controls, &commands);
        assert!(flow_controlled(&bridge, &controls));
        assert!(controls.sync_transmit_armed);
    }
    for left in (0..16usize).rev() {
        let commands = bridge.service_sync(SYNC_TRANSMIT_READY);
        carry_out(&mut controls, &commands);
        assert!(flow_controlled(&bridge, &controls));
        assert_eq!(bridge.to_sync().len(), left);
        assert_eq!(controls.sync_transmit_armed, left > 0);
    }
    let commands = bridge.service_sync(SYNC_TRANSMIT_READY);
    carry_out(&mut controls, &commands);
    assert!(flow_controlled(&bridge, &controls));
    assert!(!controls.sync_transmit_armed);
}

#[test]
fn the_master_is_enabled_by_a_queued_unit_and_disabled_after_each_transfer() {
    let mut bridge = Bridge::new();
    let mut controls = Controls::new();
    assert!(!controls.sync_enabled);

    let commands = bridge.service_async(async_received(0x61));
    carry_out(&mut controls, &commands);
    assert!(controls.sync_enabled);
    let commands = bridge.service_async(async_received(0x62));
    carry_out(&mut controls, &commands);
    assert!(controls.sync_enabled);

    let commands = bridge.service_sync(SYNC_TRANSMIT_READY);
    carry_out(&mut controls, &commands);
    assert!(!controls.sync_enabled);
    assert!(controls.sync_transmit_armed);
    assert_eq!(bridge.to_sync().to_vec(), vec![0x62]);

    let commands = bridge.service_async(async_received(0x63));
    carry_out(&mut controls, &commands);
    assert!(controls.sync_enabled);

    let commands = bridge.service_sync(SYNC_TRANSMIT_READY);
    carry_out(&mut controls, &commands);
    assert!(!controls.sync_enabled);
    assert!(!controls.async_transmit_armed);
}

#[test]
fn every_write_on_the_master_is_followed_by_a_wait_and_a_disable() {
    let mut bridge = Bridge::new();
    for unit in 0..5u16 {
        bridge.service_async(async_received(unit));
    }
    for _ in 0..6 {
        let commands = bridge.service_sync(SYNC_TRANSMIT_READY);
        for (at, command) in commands.iter().enumerate() {
            if let Command::SyncWrite(_) = command {
                assert_eq!(commands[at + 1], Command::SyncAwaitIdle);
                assert_eq!(commands[at + 2], Command::SyncDisable);
            }
        }
    }
}

#[test]
fn units_cross_the_bridge_in_both_directions() {
    let mut bridge = Bridge::new();
    let mut to_wire_async = Vec::new();
    let mut to_wire_sync = Vec::new();
    for unit in 0..40u16 {
        let commands = bridge.service_async(AsyncStatus {
            transmit_ready: true,
            received: Some(unit),
            overrun: false,
        });
        to_wire_async.extend(written(&commands));
        let commands =
            bridge.service_sync(SyncStatus { transmit_ready: true, received: Some(0x100 + unit) });
        to_wire_sync.extend(written(&commands));
    }
    let commands = bridge.service_async(ASYNC_TRANSMIT_READY);
    to_wire_async.extend(written(&commands));
    let expected_sync: Vec<Command> =
        (0..40u16).map(|unit| Command::SyncWrite(unit)).collect();
    let expected_async: Vec<Command> =
        (0..40u16).map(|unit| Command::AsyncWrite(0x100 + unit)).collect();
    assert_eq!(to_wire_sync, expected_sync);
    assert_eq!(to_wire_async, expected_async);
    assert!(bridge.to_sync().is_empty());
    assert!(bridge.to_async().is_empty());
}

#[test]
fn controls_start_disarmed_and_disabled() {
    let controls = Controls::new();
    assert_eq!(
        controls,
        Controls { async_transmit_armed: false, sync_transmit_armed: false, sync_enabled: false }
    );
}

#[test]
fn each_command_changes_its_own_bit_and_no_other() {
    let all_clear =
        Controls { async_transmit_armed: false, sync_transmit_armed: false, sync_enabled: false };
    let all_set =
        Controls { async_transmit_armed: true, sync_transmit_armed: true, sync_enabled: true };

    let mut controls = all_clear;
    controls.apply(Command::AsyncArmTransmit);
    assert_eq!(controls, Controls { async_transmit_armed: true, ..all_clear });
    let mut controls = all_clear;
    controls.apply(Command::SyncArmTransmit);
    assert_eq!(controls, Controls { sync_transmit_armed: true, ..all_clear });
    let mut controls = all_clear;
    controls.apply(Command::SyncEnable);
    assert_eq!(controls, Controls { sync_enabled: true, ..all_clear });

    let mut controls = all_set;
    controls.apply(Command::AsyncDisarmTransmit);
    assert_eq!(controls, Controls { async_transmit_armed: false, ..all_set });
    let mut controls = all_set;
    controls.apply(Command::SyncDisarmTransmit);
    assert_eq!(controls, Controls { sync_transmit_armed: false, ..all_set });
    let mut controls = all_set;
    controls.apply(Command::SyncDisable);
    assert_eq!(controls, Controls { sync_enabled: false, ..all_set });
}

#[test]
fn writes_waits_and_acknowledgements_leave_the_bits() {
    let all_clear =
        Controls { async_transmit_armed: false, sync_transmit_armed: false, sync_enabled: false };
    let all_set =
        Controls { async_transmit_armed: true, sync_transmit_armed: true, sync_enabled: true };
    for start in [all_clear, all_set] {
        for command in [
            Command::AsyncWrite(0x41),
            Command::AsyncClearOverrun,
            Command::SyncWrite(0x42),
            Command::SyncAwaitIdle,
        ] {
            let mut controls = start;
            controls.apply(command);
            assert_eq!(controls, start);
        }
    }
}

#[test]
fn what_was_sent_and_what_is_queued_is_what_was_taken_in_both_directions() {
    let mut bridge = Bridge::new();
    let mut taken_for_sync: Vec<u16> = Vec::new();
    let mut sent_to_sync: Vec<u16> = Vec::new();
    let mut taken_for_async: Vec<u16> = Vec::new();
    let mut sent_to_async: Vec<u16> = Vec::new();
    let mut dropped = 0;
    let mut seed: u32 = 0x0bad_cafe;
    for _ in 0..4000 {
        seed = seed.wrapping_mul(1_664_525).wrapping_add(1_013_904_223);
        let bits = seed >> 16;
        let received = if bits & 0x300 != 0 { Some((bits & 0xff) as u16) } else { None };
        let transmit_ready = bits & 0x1800 == 0;
        let script = if bits & 0x400 != 0 {
            if let Some(unit) = received {
                if bridge.to_sync().len() < 16 {
                    taken_for_sync.push(unit);
                } else {
                    dropped += 1;
                }
            }
            bridge.service_async(AsyncStatus { transmit_ready, received, overrun: false })
        } else {
            if let Some(unit) = received {
                if bridge.to_async().len() < 16 {
                    taken_for_async.push(unit);
                } else {
                    dropped += 1;
                }
            }
            bridge.service_sync(SyncStatus { transmit_ready, received })
        };
        for command in script {
            match command {
                Command::SyncWrite(unit) => sent_to_sync.push(unit),
                Command::AsyncWrite(unit) => sent_to_async.push(unit),
                _ => {}
            }
        }
        let mut seen = sent_to_sync.clone();
        seen.extend(bridge.to_sync().to_vec());
        assert_eq!(seen, taken_for_sync);
        let mut seen = sent_to_async.clone();
        seen.extend(bridge.to_async().to_vec());
        assert_eq!(seen, taken_for_async);
    }
    assert!(dropped > 0);
    assert!(sent_to_sync.len() > 100);
    assert!(sent_to_async.len() > 100);
}
