use rusty_ui::activity::Kind;
use rusty_ui::devices::{
    build_plan, choose_device, close_picker, device_action, device_label, device_scanned,
    flash_plan_for, forget_unplugged, holds_port, only_candidate, plan_wanted, serial_capable,
    sim_pot, sim_press, simulating, write_channel, Chip, Device, DeviceAction, FlashAction,
    Flasher, Probe, SerialPort, Start, Transport, restart_simulation, simulate, stop_anything, SimPlan,
    SimStart, Simulation, Stopping, note_install, sim_line, SimLine, note_exit, AfterStop, Exited,
};

fn port(name: &str, likely_board: bool) -> SerialPort {
    SerialPort { name: name.to_string(), likely_board }
}

fn probe(id: &str) -> Probe {
    Probe { identifier: id.to_string() }
}

/// One board plugged in is the answer; two is a question. A modem or a
/// Bluetooth port is never a candidate.
#[test]
fn the_only_board_is_chosen_and_anything_more_is_asked() {
    let one = [port("COM3", true), port("COM1", false)];
    assert!(matches!(only_candidate(&one, &[], true), Some(Transport::Serial { port }) if port == "COM3"));
    let two = [port("COM3", true), port("COM7", true)];
    assert!(only_candidate(&two, &[], true).is_none());
    assert!(only_candidate(&[port("COM1", false)], &[], true).is_none());
    assert!(only_candidate(&[], &[], true).is_none());
}

/// For a chip with a serial bootloader the port is the answer and the
/// probe is not a second candidate; for one without, the probe is all
/// there is.
#[test]
fn a_serial_chip_counts_ports_and_a_probe_only_chip_counts_probes() {
    let ports = [port("COM5", true)];
    let probes = [probe("303a:1001:34:85:18:0A:47:F4")];
    assert!(matches!(only_candidate(&ports, &probes, true), Some(Transport::Serial { .. })));
    assert!(matches!(
        only_candidate(&ports, &probes, false),
        Some(Transport::Probe { identifier: Some(id) }) if id.starts_with("303a")
    ));
    assert!(only_candidate(&ports, &[probe("a"), probe("b")], false).is_none());
}

#[test]
fn a_device_is_called_by_its_port_or_its_probe() {
    assert_eq!(device_label(&Transport::Serial { port: "COM3".to_string() }), "COM3");
    assert_eq!(device_label(&Transport::Probe { identifier: Some("abc".to_string()) }), "abc");
    assert_eq!(device_label(&Transport::Probe { identifier: None }), "probe");
}

#[test]
fn an_unknown_chip_is_flashed_over_serial() {
    let chips = vec![
        Chip { id: "esp32c3".to_string(), name: "ESP32-C3".to_string(), flashers: vec![Flasher::Espflash, Flasher::Other] },
        Chip { id: "rp2040".to_string(), name: "RP2040".to_string(), flashers: vec![Flasher::Other] },
        Chip { id: "new".to_string(), name: "New".to_string(), flashers: Vec::new() },
    ];
    assert!(serial_capable(None, &chips));
    assert!(serial_capable(Some("esp32c3"), &chips));
    assert!(!serial_capable(Some("rp2040"), &chips));
    assert!(serial_capable(Some("new"), &chips));
    assert!(serial_capable(Some("mystery"), &chips));
}

#[test]
fn a_monitor_lets_go_of_the_port_for_a_flash() {
    assert_eq!(device_action(DeviceAction::Flash, true, true), Start::StopFirst);
    assert_eq!(device_action(DeviceAction::Monitor, true, true), Start::Nothing);
    assert_eq!(device_action(DeviceAction::Flash, true, false), Start::Nothing);
    assert_eq!(device_action(DeviceAction::Flash, false, true), Start::Scan);
    assert!(holds_port(Some(Kind::Link)));
    assert!(!holds_port(Some(Kind::Build)));
    assert!(simulating(Some(Kind::Debug)));
    assert!(!simulating(None));
}

#[test]
fn with_no_board_to_go_to_the_picker_holds_the_verb() {
    let mut device = Device { transport: None, picker: false, pending: None };
    assert!(device_scanned(&mut device, DeviceAction::Flash, &[], &[], true).is_none());
    assert!(device.picker);
    assert_eq!(device.pending, Some(DeviceAction::Flash));
    let run = choose_device(&mut device, Transport::Serial { port: "COM3".to_string() }, false);
    assert_eq!(run, Some(DeviceAction::Flash));
    assert!(!device.picker && device.pending.is_none());

    let mut device = Device { transport: None, picker: false, pending: None };
    let to = device_scanned(&mut device, DeviceAction::Monitor, &[port("COM4", true)], &[], true);
    assert!(matches!(to, Some(Transport::Serial { port }) if port == "COM4"));
    assert!(matches!(&device.transport, Some(Transport::Serial { port }) if port == "COM4"), "remembered");
    forget_unplugged(&mut device, &[port("COM9", true)], &[]);
    assert!(device.transport.is_none(), "unplugged");

    let mut device = Device { transport: None, picker: true, pending: Some(DeviceAction::Monitor) };
    close_picker(&mut device);
    assert!(!device.picker && device.pending.is_none());
}

#[test]
fn a_flash_builds_first() {
    assert_eq!(flash_plan_for(DeviceAction::Flash), (true, FlashAction::FlashAndMonitor));
    assert_eq!(flash_plan_for(DeviceAction::FlashOnly), (true, FlashAction::Flash));
    assert_eq!(flash_plan_for(DeviceAction::Monitor), (false, FlashAction::Monitor));
    assert!(plan_wanted(true, FlashAction::Monitor, false));
    assert!(!plan_wanted(true, FlashAction::Flash, false));
    assert!(!plan_wanted(false, FlashAction::Monitor, true));
    assert_eq!(write_channel(FlashAction::Monitor), "monitor");
    assert_eq!(write_channel(FlashAction::Flash), "flash");
    let plan = build_plan();
    assert_eq!(plan.program, "cargo");
    assert_eq!(plan.args, ["build", "--release"]);
    assert_eq!(plan.display, "cargo build --release");
}

#[test]
fn the_board_is_sent_its_buttons_and_knobs() {
    assert_eq!(sim_press(true, 9, true).as_deref(), Some("B9=1"));
    assert_eq!(sim_press(true, 12, false).as_deref(), Some("B12=0"));
    assert_eq!(sim_press(false, 9, true), None);
    assert_eq!(sim_pot(true, 4, 255).as_deref(), Some("P4=255"));
    assert_eq!(sim_pot(false, 4, 0), None);
}

fn plan(supported: bool, missing: usize, debug: bool) -> Option<SimPlan> {
    Some(SimPlan { supported, missing, debug })
}

#[test]
fn f5_at_a_breakpoint_resumes_and_run_while_simulating_restarts() {
    let ready = plan(true, 0, true);
    assert_eq!(simulate(true, true, false, true, Some(Kind::Debug), ready).start, SimStart::Resume);
    assert!(!simulate(true, true, false, true, Some(Kind::Debug), ready).show_panel);
    assert_eq!(
        simulate(false, false, false, true, Some(Kind::Simulate), ready),
        Simulation { show_panel: true, start: SimStart::Restart { debug: false } }
    );
    // A build running is not the simulation's to stop.
    assert_eq!(simulate(false, false, false, true, Some(Kind::Build), ready).start, SimStart::Nothing);
}

#[test]
fn a_run_starts_only_on_a_plan_with_nothing_missing() {
    assert_eq!(simulate(false, false, false, false, None, plan(true, 0, false)).start, SimStart::Run { debug: false });
    assert_eq!(simulate(true, false, false, false, None, plan(true, 0, false)).start, SimStart::Nothing);
    assert_eq!(simulate(true, false, false, false, None, plan(true, 0, true)).start, SimStart::Run { debug: true });
    assert_eq!(simulate(false, false, false, false, None, plan(true, 1, true)).start, SimStart::Nothing);
    assert_eq!(simulate(false, false, false, false, None, plan(false, 0, true)).start, SimStart::Nothing);
    assert_eq!(simulate(false, false, false, false, None, None).start, SimStart::Nothing);
    // A run that cannot start still shows the board, unless it is on screen.
    assert!(simulate(false, false, false, false, None, None).show_panel);
    assert!(!simulate(false, false, true, false, None, None).show_panel);
}

#[test]
fn restart_keeps_the_way_it_was_started() {
    assert_eq!(
        restart_simulation(Some(Kind::Debug), true, false, None),
        Simulation { show_panel: false, start: SimStart::Restart { debug: true } }
    );
    assert_eq!(restart_simulation(Some(Kind::Simulate), true, false, None).start, SimStart::Restart { debug: false });
    assert_eq!(restart_simulation(Some(Kind::Flash), true, false, plan(true, 0, true)).start, SimStart::Nothing);
    assert_eq!(restart_simulation(None, false, false, plan(true, 0, true)).start, SimStart::Run { debug: false });
    assert_eq!(stop_anything(true), Stopping::Debugger);
    assert_eq!(stop_anything(false), Stopping::Session);
}

#[test]
fn a_failed_install_is_listed_once_and_a_clean_one_clears_it() {
    let mut failed = vec!["qemu".to_string()];
    note_install(&mut failed, "espflash", Some(1));
    assert_eq!(failed, vec!["qemu".to_string(), "espflash".to_string()]);
    note_install(&mut failed, "espflash", None);
    assert_eq!(failed, vec!["qemu".to_string(), "espflash".to_string()]);
    note_install(&mut failed, "qemu", Some(0));
    assert_eq!(failed, vec!["espflash".to_string()]);
    note_install(&mut failed, "probe-rs", Some(0));
    assert_eq!(failed, vec!["espflash".to_string()]);
}

#[test]
fn a_simulation_s_lines_go_where_they_belong() {
    assert_eq!(sim_line("[rusty:debug] gdb -ex 'target remote :1234'", true, true), SimLine::Debug);
    assert_eq!(sim_line("GPIO 2=1 4=0", true, false), SimLine::Pins);
    assert_eq!(sim_line("DISPLAY hello", false, true), SimLine::Display);
    assert_eq!(sim_line("booting...", false, false), SimLine::Log);
    assert_eq!(sim_line("  [rusty:debug]", false, false), SimLine::Log, "only at the start");
}

#[test]
fn an_exit_names_its_code_and_runs_what_waited() {
    let mut waiting = Some(AfterStop::Device(DeviceAction::Flash));
    assert_eq!(note_exit(Some(0), &mut waiting), Exited { code: None, next: Some(AfterStop::Device(DeviceAction::Flash)) });
    assert_eq!(waiting, None);
    assert_eq!(note_exit(Some(101), &mut waiting), Exited { code: Some(101), next: None });
    let mut again = Some(AfterStop::Simulate { debug: true });
    assert_eq!(note_exit(None, &mut again), Exited { code: None, next: Some(AfterStop::Simulate { debug: true }) });
}
