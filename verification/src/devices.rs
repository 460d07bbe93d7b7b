//! What is plugged in, which of it a verb uses, and what the simulated
//! board is sent.

use vstd::prelude::*;

use crate::activity::Kind;
use crate::text::{chars_of, decimal, decimal_of, joined, owned, same_text, starts_with, string_of, text_of, texts};

verus! {

/// How an image reaches a device: a serial port, or a debug probe.
pub enum Transport {
    Serial { port: String },
    Probe { identifier: Option<String> },
}

/// A serial port, and whether it looks like a board rather than a modem or
/// a Bluetooth port.
pub struct SerialPort {
    pub name: String,
    pub likely_board: bool,
}

/// A debug probe.
pub struct Probe {
    pub identifier: String,
}

/// A device as the contracts speak of it: a port, `(true, Some(name))`,
/// or a probe, `(false, identifier)`.
pub open spec fn transport_view(t: Transport) -> (bool, Option<Seq<char>>) {
    match t {
        Transport::Serial { port } => (true, Some(port@)),
        Transport::Probe { identifier } => (false, text_of(identifier)),
    }
}

/// The ports that look like boards.
pub open spec fn boards(ports: Seq<SerialPort>) -> Seq<SerialPort> {
    ports.filter(|p: SerialPort| p.likely_board)
}

/// The device a verb should use when none is chosen, when that is not a
/// guess: the one board plugged in. For a chip with a serial bootloader
/// only ports that look like boards count; for one without, only probes.
pub open spec fn only_candidate_of(ports: Seq<SerialPort>, probes: Seq<Probe>, serial: bool) -> Option<(bool, Option<Seq<char>>)> {
    if serial {
        if boards(ports).len() == 1 {
            Some((true, Some(boards(ports)[0].name@)))
        } else {
            None
        }
    } else if probes.len() == 1 {
        Some((false, Some(probes[0].identifier@)))
    } else {
        None
    }
}

/// The one device a verb can use without asking; `None` means ask.
pub fn only_candidate(ports: &[SerialPort], probes: &[Probe], serial: bool) -> (t: Option<Transport>)
    ensures
        match t {
            Some(t) => only_candidate_of(ports@, probes@, serial) == Some(transport_view(t)),
            None => only_candidate_of(ports@, probes@, serial) is None,
        },
{
    if serial {
        let ghost keep = |p: SerialPort| p.likely_board;
        let mut first: Option<usize> = None;
        let mut count: usize = 0;
        let mut i: usize = 0;
        while i < ports.len()
            invariant
                i <= ports.len(),
                keep == (|p: SerialPort| p.likely_board),
                count == ports@.take(i as int).filter(keep).len(),
                count <= i,
                count >= 1 ==> (first matches Some(f) && f < i && ports@.take(i as int).filter(
                    keep,
                )[0] == ports@[f as int]),
            decreases ports.len() - i,
        {
            proof {
                let s = ports@.take(i + 1);
                assert(s.drop_last() =~= ports@.take(i as int));
                ports@.take(i as int).lemma_filter_push(ports@[i as int], keep);
                assert(ports@.take(i as int).push(ports@[i as int]) =~= s);
            }
            if ports[i].likely_board {
                if count == 0 {
                    first = Some(i);
                }
                count = count + 1;
            }
            i = i + 1;
        }
        assert(ports@.take(ports.len() as int) =~= ports@);
        if count == 1 {
            match first {
                Some(f) => Some(Transport::Serial { port: owned(ports[f].name.as_str()) }),
                None => None,
            }
        } else {
            None
        }
    } else if probes.len() == 1 {
        Some(Transport::Probe { identifier: Some(owned(probes[0].identifier.as_str())) })
    } else {
        None
    }
}

/// What the status bar and the picker call a device: the port, or the
/// probe's identifier, or `probe` for a probe that has none.
pub fn device_label(transport: &Transport) -> (label: String)
    ensures
        label@ == match *transport {
            Transport::Serial { port } => port@,
            Transport::Probe { identifier: Some(id) } => id@,
            Transport::Probe { identifier: None } => "probe"@,
        },
{
    match transport {
        Transport::Serial { port } => owned(port.as_str()),
        Transport::Probe { identifier: Some(id) } => owned(id.as_str()),
        Transport::Probe { identifier: None } => owned("probe"),
    }
}

/// A tool that writes images, as the planner names it: espflash, which
/// goes over a serial bootloader, or any other.
#[derive(Clone, Copy, PartialEq, Eq, Debug, Structural)]
pub enum Flasher {
    Espflash,
    Other,
}

/// A chip of the catalogue: its id, what people call it, and the tools
/// that can write to it.
pub struct Chip {
    pub id: String,
    pub name: String,
    pub flashers: Vec<Flasher>,
}

/// The first chip at or after `k` with this id.
pub open spec fn chip_from(chips: Seq<Chip>, id: Seq<char>, k: int) -> Option<int>
    decreases chips.len() - k,
{
    if k < 0 || k >= chips.len() {
        None
    } else if chips[k].id@ == id {
        Some(k)
    } else {
        chip_from(chips, id, k + 1)
    }
}

/// Whether the project's chip is flashed over serial: an unknown chip is
/// taken to be, and so is one the catalogue names no tool for.
pub open spec fn is_serial_capable(chip: Option<Seq<char>>, chips: Seq<Chip>) -> bool {
    match chip {
        None => true,
        Some(id) => match chip_from(chips, id, 0) {
            None => true,
            Some(i) => chips[i].flashers@.len() == 0 || chips[i].flashers@.contains(Flasher::Espflash),
        },
    }
}

/// Whether the project's chip is flashed over serial.
pub fn serial_capable(chip: Option<&str>, chips: &[Chip]) -> (b: bool)
    ensures
        b == is_serial_capable(
            match chip {
                Some(c) => Some(c@),
                None => None,
            },
            chips@,
        ),
{
    let id = match chip {
        Some(c) => c,
        None => {
            return true;
        },
    };
    let mut i: usize = 0;
    while i < chips.len()
        invariant
            i <= chips.len(),
            chip == Some(id),
            chip_from(chips@, id@, 0) == chip_from(chips@, id@, i as int),
        decreases chips.len() - i,
    {
        if same_text(chips[i].id.as_str(), id) {
            assert(chip_from(chips@, id@, i as int) == Some(i as int));
            let flashers = &chips[i].flashers;
            assert(flashers@ == chips@[i as int].flashers@);
            if flashers.len() == 0 {
                return true;
            }
            let mut k: usize = 0;
            while k < flashers.len()
                invariant
                    k <= flashers.len(),
                    i < chips.len(),
                    chip == Some(id),
                    chip_from(chips@, id@, 0) == Some(i as int),
                    flashers@ == chips@[i as int].flashers@,
                    forall|j: int| 0 <= j < k ==> flashers@[j] != Flasher::Espflash,
                decreases flashers.len() - k,
            {
                if flashers[k] == Flasher::Espflash {
                    assert(flashers@[k as int] == Flasher::Espflash);
                    return true;
                }
                k = k + 1;
            }
            return false;
        }
        i = i + 1;
    }
    true
}

/// Whether what runs now is holding a serial port open: a monitor, a flash
/// gone on to monitor, or the Plot panel's link.
pub fn holds_port(kind: Option<Kind>) -> (b: bool)
    ensures
        b == (kind == Some(Kind::Monitor) || kind == Some(Kind::Link)),
{
    match kind {
        Some(Kind::Monitor) | Some(Kind::Link) => true,
        _ => false,
    }
}

/// Whether what runs now is a simulation, plain or under the debugger —
/// what Run restarts rather than refuses.
pub fn simulating(kind: Option<Kind>) -> (b: bool)
    ensures
        b == (kind == Some(Kind::Simulate) || kind == Some(Kind::Debug)),
{
    match kind {
        Some(Kind::Simulate) | Some(Kind::Debug) => true,
        _ => false,
    }
}

// ---------------------------------------------------------------------------
// Run, Debug, Restart and Stop
// ---------------------------------------------------------------------------

/// How this project would be simulated, as far as starting one goes.
#[derive(Clone, Copy, PartialEq, Eq, Debug, Structural)]
pub struct SimPlan {
    pub supported: bool,
    /// How many of the tools it needs are missing.
    pub missing: usize,
    /// Whether it can boot frozen for the debugger.
    pub debug: bool,
}

/// What Run or Debug does.
#[derive(Clone, Copy, PartialEq, Eq, Debug, Structural)]
pub enum SimStart {
    Nothing,
    /// F5 at a breakpoint: the stopped session carries on.
    Resume,
    /// The running simulation stops, and starts again this way after.
    Restart { debug: bool },
    /// Every draft and the board written, then the simulation started.
    Run { debug: bool },
}

/// Run or Debug, and whether the Simulate panel comes up for it.
#[derive(Clone, Copy, PartialEq, Eq, Debug, Structural)]
pub struct Simulation {
    pub show_panel: bool,
    pub start: SimStart,
}

/// Whether a plan can start a run of this kind.
pub open spec fn sim_ready(plan: Option<SimPlan>, debug: bool) -> bool {
    plan matches Some(p) && p.supported && p.missing == 0 && (!debug || p.debug)
}

/// Run or Debug in the simulator. F5 at a breakpoint resumes; Run while a
/// simulation runs is a restart, and while anything else runs nothing; a
/// run that cannot start still shows the board, whose panel says what is
/// missing — unless the board is on screen beside the editor already.
pub fn simulate(
    debug: bool,
    stopped_at_breakpoint: bool,
    board_in_view: bool,
    session_running: bool,
    activity: Option<Kind>,
    plan: Option<SimPlan>,
) -> (s: Simulation)
    ensures
        s == (if debug && stopped_at_breakpoint {
            Simulation { show_panel: false, start: SimStart::Resume }
        } else {
            Simulation {
                show_panel: !board_in_view,
                start: if session_running {
                    if activity == Some(Kind::Simulate) || activity == Some(Kind::Debug) {
                        SimStart::Restart { debug }
                    } else {
                        SimStart::Nothing
                    }
                } else if sim_ready(plan, debug) {
                    SimStart::Run { debug }
                } else {
                    SimStart::Nothing
                },
            }
        }),
{
    if debug && stopped_at_breakpoint {
        return Simulation { show_panel: false, start: SimStart::Resume };
    }
    let start = if session_running {
        if simulating(activity) {
            SimStart::Restart { debug }
        } else {
            SimStart::Nothing
        }
    } else {
        let ready = match plan {
            Some(p) => p.supported && p.missing == 0 && (!debug || p.debug),
            None => false,
        };
        if ready {
            SimStart::Run { debug }
        } else {
            SimStart::Nothing
        }
    };
    Simulation { show_panel: !board_in_view, start }
}

/// Stop the simulation that runs and start it again the way it was
/// started — under the debugger or not; with nothing running, it is Run.
pub fn restart_simulation(
    activity: Option<Kind>,
    session_running: bool,
    board_in_view: bool,
    plan: Option<SimPlan>,
) -> (s: Simulation)
    ensures
        (activity == Some(Kind::Simulate) || activity == Some(Kind::Debug)) ==> s == (Simulation {
            show_panel: false,
            start: SimStart::Restart { debug: activity == Some(Kind::Debug) },
        }),
        !(activity == Some(Kind::Simulate) || activity == Some(Kind::Debug)) ==> s == (if session_running {
            Simulation { show_panel: false, start: SimStart::Nothing }
        } else {
            Simulation {
                show_panel: !board_in_view,
                start: if sim_ready(plan, false) { SimStart::Run { debug: false } } else { SimStart::Nothing },
            }
        }),
{
    if simulating(activity) {
        let debug = match activity {
            Some(Kind::Debug) => true,
            _ => false,
        };
        Simulation { show_panel: false, start: SimStart::Restart { debug } }
    } else if session_running {
        Simulation { show_panel: false, start: SimStart::Nothing }
    } else {
        simulate(false, false, board_in_view, false, activity, plan)
    }
}

/// Where a line a simulation prints goes.
#[derive(Clone, Copy, PartialEq, Eq, Debug, Structural)]
pub enum SimLine {
    /// The debug sentinel: the emulator is frozen and listening; the line
    /// is shown and the debugger attached.
    Debug,
    /// A pin report: it drives the board view instead of the dock.
    Pins,
    /// A display report: it drives the board's screen.
    Display,
    /// Anything else goes to the dock.
    Log,
}

/// Where a simulation's line goes, given whether it reads as a pin report
/// and as a display report: the debug sentinel first, then the pins, then
/// the display, and the dock for the rest.
pub fn sim_line(text: &str, pin_report: bool, display_report: bool) -> (l: SimLine)
    ensures
        l == (if "[rusty:debug]"@.is_prefix_of(text@) {
            SimLine::Debug
        } else if pin_report {
            SimLine::Pins
        } else if display_report {
            SimLine::Display
        } else {
            SimLine::Log
        }),
{
    let t = chars_of(text);
    let sentinel = chars_of("[rusty:debug]");
    if starts_with(&t, &sentinel) {
        SimLine::Debug
    } else if pin_report {
        SimLine::Pins
    } else if display_report {
        SimLine::Display
    } else {
        SimLine::Log
    }
}

/// What waits for the running session to end: a flash that needed its
/// port, or the same simulation again with the code on screen.
#[derive(Clone, Copy, PartialEq, Eq, Debug, Structural)]
pub enum AfterStop {
    Device(DeviceAction),
    Simulate { debug: bool },
}

/// How a tool's end is noted in the dock, and what runs next.
#[derive(Clone, Copy, PartialEq, Eq, Debug, Structural)]
pub struct Exited {
    /// The code the dock names — `None` for a tool that simply finished.
    pub code: Option<i32>,
    /// What was waiting for it, now due.
    pub next: Option<AfterStop>,
}

/// A spawned tool ended: a clean exit, or one with no code, is "finished";
/// any other names its code; and whatever waited for the session to end is
/// taken, to run now.
pub fn note_exit(code: Option<i32>, after_stop: &mut Option<AfterStop>) -> (e: Exited)
    ensures
        e.code == (match code {
            Some(c) => if c == 0 { None } else { Some(c) },
            None => None,
        }),
        e.next == *old(after_stop),
        *final(after_stop) is None,
{
    let shown = match code {
        Some(c) => if c == 0 { None } else { Some(c) },
        None => None,
    };
    let next = *after_stop;
    *after_stop = None;
    Exited { code: shown, next }
}

/// How whatever runs is stopped.
#[derive(Clone, Copy, PartialEq, Eq, Debug, Structural)]
pub enum Stopping {
    /// A debug session ends through its debugger, which stops the emulator
    /// it booted as well.
    Debugger,
    /// The session's tool is stopped.
    Session,
}

/// Stop whatever runs — the title bar's Stop, Shift+F5.
pub fn stop_anything(debugging: bool) -> (s: Stopping)
    ensures
        s == (if debugging { Stopping::Debugger } else { Stopping::Session }),
{
    if debugging {
        Stopping::Debugger
    } else {
        Stopping::Session
    }
}

/// The simulator tools whose install failed, after one more install of
/// `name` ended: a clean exit takes it off the list, anything else puts it
/// on once — which is what reveals the manual instructions.
pub fn note_install(failed: &mut Vec<String>, name: &str, code: Option<i32>)
    ensures
        code == Some(0i32) ==> texts(final(failed)@) == texts(old(failed)@).filter(|t: Seq<char>| t != name@),
        code != Some(0i32) ==> texts(final(failed)@) == (if texts(old(failed)@).contains(name@) {
            texts(old(failed)@)
        } else {
            texts(old(failed)@).push(name@)
        }),
{
    let ghost before = failed@;
    let ghost keep = |t: Seq<char>| t != name@;
    let clean = match code {
        Some(c) => c == 0,
        None => false,
    };
    if clean {
        let mut out: Vec<String> = Vec::new();
        let mut i: usize = 0;
        while i < failed.len()
            invariant
                i <= failed.len(),
                failed@ == before,
                keep == (|t: Seq<char>| t != name@),
                texts(out@) == texts(before).take(i as int).filter(keep),
            decreases failed.len() - i,
        {
            if !same_text(failed[i].as_str(), name) {
                out.push(owned(failed[i].as_str()));
            }
            proof {
                let s = texts(before).take(i + 1);
                assert(s.drop_last() =~= texts(before).take(i as int));
                s.drop_last().lemma_filter_push(s.last(), keep);
                assert(s.drop_last().push(s.last()) =~= s);
                assert(texts(out@) =~= texts(before).take(i + 1).filter(keep));
            }
            i = i + 1;
        }
        assert(texts(before).take(before.len() as int) =~= texts(before));
        *failed = out;
    } else {
        let mut i: usize = 0;
        let mut listed = false;
        while i < failed.len()
            invariant
                i <= failed.len(),
                listed == exists|k: int| 0 <= k < i && #[trigger] texts(failed@)[k] == name@,
            decreases failed.len() - i,
        {
            assert(texts(failed@)[i as int] == failed@[i as int]@);
            if same_text(failed[i].as_str(), name) {
                listed = true;
            }
            i = i + 1;
        }
        if !listed {
            failed.push(owned(name));
            assert(texts(failed@) =~= texts(before).push(name@));
        }
    }
}

// ---------------------------------------------------------------------------
// The device verbs
// ---------------------------------------------------------------------------

/// What the title bar, the Device menu or the palette asked for.
#[derive(Clone, Copy, PartialEq, Eq, Debug, Structural)]
pub enum DeviceAction {
    Flash,
    FlashOnly,
    Monitor,
}

/// What the planner is asked to plan.
#[derive(Clone, Copy, PartialEq, Eq, Debug, Structural)]
pub enum FlashAction {
    Flash,
    FlashAndMonitor,
    Monitor,
}

/// The device picker and the verb waiting in it.
pub struct Device {
    pub transport: Option<Transport>,
    pub picker: bool,
    pub pending: Option<DeviceAction>,
}

/// How a device verb starts.
#[derive(Clone, Copy, PartialEq, Eq, Debug, Structural)]
pub enum Start {
    /// Something else runs and it is not the verb's to stop.
    Nothing,
    /// A monitor or a link holds the port: stop it, and do the verb after.
    StopFirst,
    /// Look at what is plugged in, then carry on.
    Scan,
}

/// How a device verb starts: a monitor or a link holding the port is let
/// go first, the way an Upload button does; anything else running is left
/// alone; and with nothing running, the devices are scanned.
pub fn device_action(action: DeviceAction, session_running: bool, holds_port: bool) -> (s: Start)
    ensures
        s == (if session_running {
            if action != DeviceAction::Monitor && holds_port {
                Start::StopFirst
            } else {
                Start::Nothing
            }
        } else {
            Start::Scan
        }),
{
    if session_running {
        if action != DeviceAction::Monitor && holds_port {
            Start::StopFirst
        } else {
            Start::Nothing
        }
    } else {
        Start::Scan
    }
}

fn copy_transport(t: &Transport) -> (c: Transport)
    ensures
        transport_view(c) == transport_view(*t),
{
    match t {
        Transport::Serial { port } => Transport::Serial { port: owned(port.as_str()) },
        Transport::Probe { identifier: Some(id) } => Transport::Probe { identifier: Some(owned(id.as_str())) },
        Transport::Probe { identifier: None } => Transport::Probe { identifier: None },
    }
}

/// The devices were scanned: the verb goes to the chosen device, or to the
/// only board plugged in — which is then chosen — or else the picker opens
/// with the verb waiting in it.
pub fn device_scanned(device: &mut Device, action: DeviceAction, ports: &[SerialPort], probes: &[Probe], serial: bool) -> (to: Option<Transport>)
    ensures
        match old(device).transport {
            Some(t) => to matches Some(u) && transport_view(u) == transport_view(t) && *final(device)
                == *old(device),
            None => match only_candidate_of(ports@, probes@, serial) {
                Some(v) => {
                    &&& to matches Some(u) && transport_view(u) == v
                    &&& final(device).transport matches Some(c) && transport_view(c) == v
                    &&& final(device).picker == old(device).picker
                    &&& final(device).pending == old(device).pending
                },
                None => {
                    &&& to is None
                    &&& final(device).transport is None
                    &&& final(device).picker
                    &&& final(device).pending == Some(action)
                },
            },
        },
{
    match &device.transport {
        Some(t) => {
            return Some(copy_transport(t));
        },
        None => {},
    }
    match only_candidate(ports, probes, serial) {
        Some(t) => {
            let chosen = copy_transport(&t);
            device.transport = Some(chosen);
            Some(t)
        },
        None => {
            device.pending = Some(action);
            device.picker = true;
            None
        },
    }
}

/// A row in the picker, clicked: the device for every verb from now on;
/// and the verb that opened the picker comes back to be done, unless
/// something has started running meanwhile.
pub fn choose_device(device: &mut Device, transport: Transport, session_running: bool) -> (run: Option<DeviceAction>)
    ensures
        final(device).transport == Some(transport),
        !final(device).picker,
        final(device).pending is None,
        run == (if session_running {
            None
        } else {
            old(device).pending
        }),
{
    device.transport = Some(transport);
    device.picker = false;
    let pending = device.pending;
    device.pending = None;
    if session_running {
        None
    } else {
        pending
    }
}

/// The picker put away without a choice: the verb it was holding goes too.
pub fn close_picker(device: &mut Device)
    ensures
        !final(device).picker,
        final(device).pending is None,
        final(device).transport == old(device).transport,
{
    device.picker = false;
    device.pending = None;
}

/// A chosen port is kept only while it is still attached.
pub fn forget_unplugged(device: &mut Device, ports: &[SerialPort], probes: &[Probe])
    ensures
        final(device).picker == old(device).picker,
        final(device).pending == old(device).pending,
        match old(device).transport {
            Some(Transport::Serial { port }) => if ports@.map_values(|p: SerialPort| p.name@).contains(
                port@,
            ) {
                final(device).transport == old(device).transport
            } else {
                final(device).transport is None
            },
            Some(Transport::Probe { identifier: Some(id) }) => if probes@.map_values(
                |p: Probe| p.identifier@,
            ).contains(id@) {
                final(device).transport == old(device).transport
            } else {
                final(device).transport is None
            },
            _ => final(device).transport == old(device).transport,
        },
{
    let gone = match &device.transport {
        Some(Transport::Serial { port }) => {
            let ghost names = ports@.map_values(|p: SerialPort| p.name@);
            let mut found = false;
            let mut i: usize = 0;
            while i < ports.len()
                invariant
                    i <= ports.len(),
                    names == ports@.map_values(|p: SerialPort| p.name@),
                    found == exists|k: int| 0 <= k < i && #[trigger] names[k] == port@,
                decreases ports.len() - i,
            {
                assert(names[i as int] == ports@[i as int].name@);
                if same_text(ports[i].name.as_str(), port.as_str()) {
                    found = true;
                }
                i = i + 1;
            }
            !found
        },
        Some(Transport::Probe { identifier: Some(id) }) => {
            let ghost names = probes@.map_values(|p: Probe| p.identifier@);
            let mut found = false;
            let mut i: usize = 0;
            while i < probes.len()
                invariant
                    i <= probes.len(),
                    names == probes@.map_values(|p: Probe| p.identifier@),
                    found == exists|k: int| 0 <= k < i && #[trigger] names[k] == id@,
                decreases probes.len() - i,
            {
                assert(names[i as int] == probes@[i as int].identifier@);
                if same_text(probes[i].identifier.as_str(), id.as_str()) {
                    found = true;
                }
                i = i + 1;
            }
            !found
        },
        _ => false,
    };
    if gone {
        device.transport = None;
    }
}

/// What a device verb does once it has a device: a monitor attaches; a
/// flash builds first — the image on the board is the code on screen — and
/// then writes, staying attached or not.
pub fn flash_plan_for(action: DeviceAction) -> (plan: (bool, FlashAction))
    ensures
        plan == match action {
            DeviceAction::Monitor => (false, FlashAction::Monitor),
            DeviceAction::Flash => (true, FlashAction::FlashAndMonitor),
            DeviceAction::FlashOnly => (true, FlashAction::Flash),
        },
{
    match action {
        DeviceAction::Monitor => (false, FlashAction::Monitor),
        DeviceAction::Flash => (true, FlashAction::FlashAndMonitor),
        DeviceAction::FlashOnly => (true, FlashAction::Flash),
    }
}

/// Whether the picker can show the command a device would get: a device
/// is chosen, and there is an image to write unless only monitoring.
pub fn plan_wanted(has_transport: bool, action: FlashAction, has_firmware: bool) -> (b: bool)
    ensures
        b == (has_transport && (action == FlashAction::Monitor || has_firmware)),
{
    has_transport && (action == FlashAction::Monitor || has_firmware)
}

/// A command to run, and how it is shown.
pub struct CommandPlan {
    pub program: String,
    pub args: Vec<String>,
    pub display: String,
    pub rationale: String,
    pub warning: Option<String>,
}

/// The build every Build and every Flash runs.
pub fn build_plan() -> (plan: CommandPlan)
    ensures
        plan.program@ == "cargo"@,
        plan.args@.len() == 2 && plan.args@[0]@ == "build"@ && plan.args@[1]@ == "--release"@,
        plan.display@ == "cargo build --release"@,
        plan.rationale@.len() == 0,
        plan.warning is None,
{
    let mut args: Vec<String> = Vec::new();
    args.push(owned("build"));
    args.push(owned("--release"));
    CommandPlan {
        program: owned("cargo"),
        args,
        display: owned("cargo build --release"),
        rationale: String::new(),
        warning: None,
    }
}

/// The dock channel a write streams under.
pub fn write_channel(action: FlashAction) -> (channel: &'static str)
    ensures
        channel@ == (if action == FlashAction::Monitor {
            "monitor"@
        } else {
            "flash"@
        }),
{
    if action == FlashAction::Monitor {
        "monitor"
    } else {
        "flash"
    }
}

// ---------------------------------------------------------------------------
// The simulated board
// ---------------------------------------------------------------------------

/// `B<pin>=1` for a button pressed, `B<pin>=0` released.
pub open spec fn press_text(pin: u8, down: bool) -> Seq<char> {
    "B"@ + decimal(pin as nat) + if down {
        "=1"@
    } else {
        "=0"@
    }
}

/// `P<pin>=<value>` for a potentiometer.
pub open spec fn pot_text(pin: u8, value: u8) -> Seq<char> {
    "P"@ + decimal(pin as nat) + "="@ + decimal(value as nat)
}

/// A button transition on the board view, for the firmware's UART; nothing
/// when no session runs, which is what pressing a powered-off board does.
pub fn sim_press(session_running: bool, pin: u8, down: bool) -> (text: Option<String>)
    ensures
        !session_running ==> text is None,
        session_running ==> (text matches Some(t) && t@ == press_text(pin, down)),
{
    if !session_running {
        return None;
    }
    let level = if down {
        chars_of("=1")
    } else {
        chars_of("=0")
    };
    let v = joined(&joined(&chars_of("B"), &decimal_of(pin as u64)), &level);
    Some(string_of(&v))
}

/// A potentiometer moved, for the firmware's UART; nothing when no session
/// runs.
pub fn sim_pot(session_running: bool, pin: u8, value: u8) -> (text: Option<String>)
    ensures
        !session_running ==> text is None,
        session_running ==> (text matches Some(t) && t@ == pot_text(pin, value)),
{
    if !session_running {
        return None;
    }
    let head = joined(&chars_of("P"), &decimal_of(pin as u64));
    let v = joined(&joined(&head, &chars_of("=")), &decimal_of(value as u64));
    Some(string_of(&v))
}

} // verus!
