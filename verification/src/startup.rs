//! Starting and stopping on this machine: at login, with more rights, and beside a copy
//! that is already running.
use crate::text;
use vstd::prelude::*;
use vstd::string::*;

verus! {

// ---------------------------------------------------------------- starting at login
/// The agent that starts seam at login on a Mac. It runs once: a crash that relaunches
/// itself forever is worse than seam being off.
pub open spec fn agent(exe: Seq<char>) -> Seq<char> {
    "<?xml version=\"1.0\" encoding=\"UTF-8\"?>\n<!DOCTYPE plist PUBLIC \"-//Apple//DTD PLIST 1.0//EN\" \"http://www.apple.com/DTDs/PropertyList-1.0.dtd\">\n<plist version=\"1.0\"><dict>\n  <key>Label</key><string>dev.seam.seam</string>\n  <key>ProgramArguments</key><array><string>"@
        + exe
        + "</string><string>run</string><string>--no-ui</string></array>\n  <key>RunAtLoad</key><true/>\n</dict></plist>\n"@
}

/// The agent that starts seam at login on a Mac.
pub fn launch_agent(exe: &str) -> (s: String)
    ensures
        s@ == agent(exe@),
{
    let mut s = String::from_str(
        "<?xml version=\"1.0\" encoding=\"UTF-8\"?>\n<!DOCTYPE plist PUBLIC \"-//Apple//DTD PLIST 1.0//EN\" \"http://www.apple.com/DTDs/PropertyList-1.0.dtd\">\n<plist version=\"1.0\"><dict>\n  <key>Label</key><string>dev.seam.seam</string>\n  <key>ProgramArguments</key><array><string>",
    );
    s.append(exe);
    s.append(
        "</string><string>run</string><string>--no-ui</string></array>\n  <key>RunAtLoad</key><true/>\n</dict></plist>\n",
    );
    s
}

/// A program to run.
#[derive(PartialEq, Eq, Debug)]
pub struct Order {
    pub program: &'static str,
    pub args: Vec<String>,
}

/// Where Windows keeps what starts at login.
pub open spec fn run_key() -> Seq<char> {
    "HKCU\\Software\\Microsoft\\Windows\\CurrentVersion\\Run"@
}

/// What is started at login.
pub open spec fn login_line(exe: Seq<char>) -> Seq<char> {
    "\""@ + exe + "\" run --no-ui"@
}

/// Whether an order runs a program with these arguments.
pub open spec fn runs(order: Order, program: Seq<char>, args: Seq<Seq<char>>) -> bool {
    order.program@ == program && text::contents(order.args@) == args
}

/// The order that makes a logon task with the highest rights: every sign-in then starts
/// seam elevated, without a prompt.
pub open spec fn makes_task(order: Order, exe: Seq<char>) -> bool {
    runs(
        order,
        "schtasks"@,
        seq![
            "/create"@,
            "/tn"@,
            "seam"@,
            "/tr"@,
            login_line(exe),
            "/sc"@,
            "onlogon"@,
            "/rl"@,
            "highest"@,
            "/f"@,
        ],
    )
}

/// The order that removes the logon task.
pub open spec fn removes_task(order: Order) -> bool {
    runs(order, "schtasks"@, seq!["/delete"@, "/tn"@, "seam"@, "/f"@])
}

/// The order that writes the login value.
pub open spec fn writes_value(order: Order, exe: Seq<char>) -> bool {
    runs(
        order,
        "reg"@,
        seq![
            "add"@,
            run_key(),
            "/v"@,
            "seam"@,
            "/t"@,
            "REG_SZ"@,
            "/d"@,
            login_line(exe),
            "/f"@,
        ],
    )
}

/// The order that removes the login value.
pub open spec fn removes_value(order: Order) -> bool {
    runs(order, "reg"@, seq!["delete"@, run_key(), "/v"@, "seam"@, "/f"@])
}

fn login_text(exe: &str) -> (s: String)
    ensures
        s@ == login_line(exe@),
{
    let mut s = String::from_str("\"");
    s.append(exe);
    s.append("\" run --no-ui");
    s
}

fn make_task(exe: &str) -> (o: Order)
    ensures
        makes_task(o, exe@),
{
    let mut args: Vec<String> = Vec::new();
    args.push(String::from_str("/create"));
    args.push(String::from_str("/tn"));
    args.push(String::from_str("seam"));
    args.push(String::from_str("/tr"));
    args.push(login_text(exe));
    args.push(String::from_str("/sc"));
    args.push(String::from_str("onlogon"));
    args.push(String::from_str("/rl"));
    args.push(String::from_str("highest"));
    args.push(String::from_str("/f"));
    let o = Order { program: "schtasks", args };
    proof {
        assert(text::contents(o.args@) =~= seq![
            "/create"@,
            "/tn"@,
            "seam"@,
            "/tr"@,
            login_line(exe@),
            "/sc"@,
            "onlogon"@,
            "/rl"@,
            "highest"@,
            "/f"@,
        ]);
    }
    o
}

fn remove_task() -> (o: Order)
    ensures
        removes_task(o),
{
    let mut args: Vec<String> = Vec::new();
    args.push(String::from_str("/delete"));
    args.push(String::from_str("/tn"));
    args.push(String::from_str("seam"));
    args.push(String::from_str("/f"));
    let o = Order { program: "schtasks", args };
    proof {
        assert(text::contents(o.args@) =~= seq!["/delete"@, "/tn"@, "seam"@, "/f"@]);
    }
    o
}

fn write_value(exe: &str) -> (o: Order)
    ensures
        writes_value(o, exe@),
{
    let mut args: Vec<String> = Vec::new();
    args.push(String::from_str("add"));
    args.push(String::from_str("HKCU\\Software\\Microsoft\\Windows\\CurrentVersion\\Run"));
    args.push(String::from_str("/v"));
    args.push(String::from_str("seam"));
    args.push(String::from_str("/t"));
    args.push(String::from_str("REG_SZ"));
    args.push(String::from_str("/d"));
    args.push(login_text(exe));
    args.push(String::from_str("/f"));
    let o = Order { program: "reg", args };
    proof {
        assert(text::contents(o.args@) =~= seq![
            "add"@,
            run_key(),
            "/v"@,
            "seam"@,
            "/t"@,
            "REG_SZ"@,
            "/d"@,
            login_line(exe@),
            "/f"@,
        ]);
    }
    o
}

fn remove_value() -> (o: Order)
    ensures
        removes_value(o),
{
    let mut args: Vec<String> = Vec::new();
    args.push(String::from_str("delete"));
    args.push(String::from_str("HKCU\\Software\\Microsoft\\Windows\\CurrentVersion\\Run"));
    args.push(String::from_str("/v"));
    args.push(String::from_str("seam"));
    args.push(String::from_str("/f"));
    let o = Order { program: "reg", args };
    proof {
        assert(text::contents(o.args@) =~= seq!["delete"@, run_key(), "/v"@, "seam"@, "/f"@]);
    }
    o
}

/// How to make Windows start seam at login, or stop.
#[derive(PartialEq, Eq, Debug)]
pub struct LoginPlan {
    /// Run this first, if there is anything to try.
    pub attempt: Option<Order>,
    /// If that worked, run these and no more.
    pub settled: Vec<Order>,
    /// Otherwise, or where there was nothing to try, run these.
    pub otherwise: Vec<Order>,
}

/// How to make Windows start seam at login, or stop. With the rights for it a logon task is
/// made, and the value is removed: both would start seam twice.
pub fn set_start_at_login(enable: bool, elevated: bool, exe: &str) -> (p: LoginPlan)
    ensures
        enable && elevated ==> {
            &&& p.attempt matches Some(o) && makes_task(o, exe@)
            &&& p.settled@.len() == 1 && removes_value(p.settled@[0])
            &&& p.otherwise@.len() == 1 && writes_value(p.otherwise@[0], exe@)
        },
        enable && !elevated ==> {
            &&& p.attempt is None
            &&& p.settled@.len() == 0
            &&& p.otherwise@.len() == 1 && writes_value(p.otherwise@[0], exe@)
        },
        !enable ==> {
            &&& p.attempt is None
            &&& p.settled@.len() == 0
            &&& p.otherwise@.len() == 2 && removes_task(p.otherwise@[0]) && removes_value(
                p.otherwise@[1],
            )
        },
{
    let mut settled: Vec<Order> = Vec::new();
    let mut otherwise: Vec<Order> = Vec::new();
    if !enable {
        otherwise.push(remove_task());
        otherwise.push(remove_value());
        return LoginPlan { attempt: None, settled, otherwise };
    }
    otherwise.push(write_value(exe));
    if elevated {
        settled.push(remove_value());
        LoginPlan { attempt: Some(make_task(exe)), settled, otherwise }
    } else {
        LoginPlan { attempt: None, settled, otherwise }
    }
}

/// What to do about a login entry that may name another copy of seam.
#[derive(PartialEq, Eq, Debug)]
pub enum Repair {
    Nothing,
    /// Record this copy anew.
    Record,
    /// Write the value anew.
    Write(Order),
}

/// What to do about a login entry that may name another copy of seam. The one that is
/// running is the one that is meant. `recorded` is what the value holds, if there is one.
pub fn repair_start_at_login_path(
    at_login: bool,
    elevated: bool,
    recorded: Option<&str>,
    exe: &str,
) -> (r: Repair)
    ensures
        if at_login && elevated {
            r is Record
        } else {
            match recorded {
                None => r is Nothing,
                Some(value) => if text::found(value@, exe@, 0) is Some {
                    r is Nothing
                } else {
                    r matches Repair::Write(o) && writes_value(o, exe@)
                },
            }
        },
{
    if at_login && elevated {
        return Repair::Record;
    }
    match recorded {
        None => Repair::Nothing,
        Some(value) => {
            let chars = text::chars_of(value);
            if text::holds(chars.as_slice(), exe) {
                Repair::Nothing
            } else {
                Repair::Write(write_value(exe))
            }
        },
    }
}

/// Whether a file beside this program is a copy of seam that an early installer left: named
/// after a version, and runnable.
pub open spec fn fossil(name: Seq<char>) -> bool {
    &&& text::begins(text::lowercase(name), "seam-"@)
    &&& text::cut_last(name, '.') matches Some((stem, ext)) && stem.len() > 0 && text::lowered(ext)
        == "exe"@
}

/// Whether a file beside this program is a copy of seam that an early installer left.
pub fn is_fossil(name: &str) -> (b: bool)
    ensures
        b == fossil(name@),
{
    let lower = text::to_lowercase(name);
    let lower = text::chars_of(lower.as_str());
    if !text::starts(lower.as_slice(), "seam-") {
        return false;
    }
    let chars = text::chars_of(name);
    match text::cut_at_last(chars.as_slice(), '.') {
        Some((stem, ext)) => {
            let ext = text::lower_ascii(ext.as_slice());
            stem.len() > 0 && text::is_text(ext.as_slice(), "exe")
        },
        None => false,
    }
}

// ---------------------------------------------------------------- with more rights
/// The arguments to start a copy with: a bare program has no subcommand, so they are built
/// and not passed on.
pub open spec fn relaunched(port: u16, connect: Seq<Seq<char>>, open_ui: bool) -> Seq<Seq<char>> {
    seq!["run"@, "--no-elevate"@] + (if port != 0 {
        seq!["--port"@, text::decimal(port as nat)]
    } else {
        Seq::empty()
    }) + connects(connect) + (if open_ui {
        Seq::empty()
    } else {
        seq!["--no-ui"@]
    })
}

/// The arguments that name the addresses to dial.
pub open spec fn connects(connect: Seq<Seq<char>>) -> Seq<Seq<char>>
    decreases connect.len(),
{
    if connect.len() == 0 {
        Seq::empty()
    } else {
        connects(connect.drop_last()).push("--connect"@).push(connect.last())
    }
}

/// The arguments to start a copy with.
pub fn relaunch_args(port: u16, connect: &Vec<String>, open_ui: bool) -> (args: Vec<String>)
    ensures
        text::contents(args@) == relaunched(port, text::contents(connect@), open_ui),
{
    let mut args: Vec<String> = Vec::new();
    args.push(String::from_str("run"));
    args.push(String::from_str("--no-elevate"));
    if port != 0 {
        args.push(String::from_str("--port"));
        args.push(text::decimal_text(port as u64));
    }
    let ghost head = text::contents(args@);
    let ghost all = text::contents(connect@);
    let mut i: usize = 0;
    proof {
        assert(head =~= seq!["run"@, "--no-elevate"@] + (if port != 0 {
            seq!["--port"@, text::decimal(port as nat)]
        } else {
            Seq::empty()
        }));
        assert(text::contents(args@) =~= head + connects(all.take(0)));
    }
    while i < connect.len()
        invariant
            i <= connect@.len(),
            all == text::contents(connect@),
            text::contents(args@) == head + connects(all.take(i as int)),
        decreases connect.len() - i,
    {
        let ghost before = text::contents(args@);
        args.push(String::from_str("--connect"));
        args.push(connect[i].as_str().to_owned());
        proof {
            let next = all.take(i + 1);
            assert(next.drop_last() =~= all.take(i as int));
            assert(next.last() == connect@[i as int]@);
            assert(text::contents(args@) =~= before.push("--connect"@).push(connect@[i as int]@));
            assert(text::contents(args@) =~= head + connects(next));
        }
        i = i + 1;
    }
    proof {
        assert(all.take(all.len() as int) =~= all);
    }
    let ghost before = text::contents(args@);
    if !open_ui {
        args.push(String::from_str("--no-ui"));
    }
    proof {
        assert(text::contents(args@) =~= before + (if open_ui {
            Seq::empty()
        } else {
            seq!["--no-ui"@]
        }));
    }
    args
}

/// Whether a copy that was started with more rights is running: it has written its own note
/// of where its page is. That the system took the request says nothing.
pub fn child_has_started(before: &str, now: &str) -> (b: bool)
    ensures
        b == (now@.len() > 0 && now@ != before@),
{
    !now.is_empty() && !text::same(now, before)
}

/// Whether a person's answer is a yes. Anything else is a no.
pub fn confirmed(answer: &str) -> (b: bool)
    ensures
        b == (text::lowercase(text::trimmed(answer@)) == "y"@ || text::lowercase(
            text::trimmed(answer@),
        ) == "yes"@),
{
    let chars = text::chars_of(answer);
    let line = text::string_of(text::trim(chars.as_slice()).as_slice());
    let line = text::to_lowercase(line.as_str());
    text::same(line.as_str(), "y") || text::same(line.as_str(), "yes")
}

// ---------------------------------------------------------------- beside a running copy
/// How far a newly started program is in taking the port over from one that has it.
#[derive(Clone, Copy, PartialEq, Eq, Debug, Structural)]
pub enum Stage {
    /// The port is tried for the first time.
    Binding,
    /// The program that has it is asked to quit.
    Asking,
    /// The port is tried again as that program goes away, and then this many more times.
    Waiting { forced: bool, left: u32 },
    /// Every other copy is stopped.
    Stopping,
    /// It is settled.
    Over,
}

/// A newly started program taking the port over.
#[derive(Clone, Copy, PartialEq, Eq, Debug, Structural)]
pub struct TakeOver {
    /// Whether a copy that will not quit can be stopped: only Windows is told to.
    pub windows: bool,
    pub stage: Stage,
}

/// What came of the last action.
#[derive(Clone, Copy, PartialEq, Eq, Debug, Structural)]
pub enum BindEvent {
    /// The port is ours.
    Bound,
    /// Something else listens on the port.
    InUse,
    /// The port could not be had for another reason.
    Failed,
    /// The program that has the port was asked to quit, and whether that reached it.
    Asked(bool),
    /// Every other copy was told to stop.
    Stopped,
}

/// What to do next.
#[derive(Clone, Copy, PartialEq, Eq, Debug, Structural)]
pub enum BindAction {
    /// Run, on the port just bound. Whether another copy had to be stopped for it.
    Run { forced: bool },
    /// Report why the port could not be had.
    GiveUp,
    /// Ask the program that has the port to quit.
    AskToQuit,
    /// Wait a moment, and try the port again.
    TryAgain,
    /// Stop every other copy.
    StopOthers,
    /// Show the page of the program that runs already.
    ShowRunning,
    /// Nothing: the event answers nothing that was asked.
    Nothing,
}

/// How often the port is tried while a program goes away.
pub const TRIES: u32 = 20;

impl TakeOver {
    /// The first try of the port is under way.
    pub fn begin(windows: bool) -> (t: TakeOver)
        ensures
            t == (TakeOver { windows, stage: Stage::Binding }),
            t.wf(),
    {
        TakeOver { windows, stage: Stage::Binding }
    }

    /// One try is under way, so fewer than all are left.
    pub open spec fn wf(self) -> bool {
        self.stage matches Stage::Waiting { left, .. } ==> left < TRIES
    }

    pub open spec fn at(self, stage: Stage) -> TakeOver {
        TakeOver { stage, ..self }
    }

    /// The first of the tries after something was told to go away.
    pub open spec fn waiting(self, forced: bool) -> (TakeOver, BindAction) {
        (self.at(Stage::Waiting { forced, left: (TRIES - 1) as u32 }), BindAction::TryAgain)
    }

    /// A request to quit did not free the port. A copy old enough does not know such a
    /// request, and the one just started is the one a person means.
    pub open spec fn insisting(self) -> (TakeOver, BindAction) {
        if self.windows {
            (self.at(Stage::Stopping), BindAction::StopOthers)
        } else {
            (self.at(Stage::Over), BindAction::ShowRunning)
        }
    }
}

/// One step of taking the port over.
pub open spec fn taken_over(state: TakeOver, event: BindEvent) -> (TakeOver, BindAction) {
    match (state.stage, event) {
        (Stage::Binding, BindEvent::Bound) => (
            state.at(Stage::Over),
            BindAction::Run { forced: false },
        ),
        (Stage::Binding, BindEvent::InUse) => (state.at(Stage::Asking), BindAction::AskToQuit),
        (Stage::Binding, BindEvent::Failed) => (state.at(Stage::Over), BindAction::GiveUp),
        (Stage::Asking, BindEvent::Asked(reached)) => if reached {
            state.waiting(false)
        } else {
            state.insisting()
        },
        (Stage::Waiting { forced, .. }, BindEvent::Bound) => (
            state.at(Stage::Over),
            BindAction::Run { forced },
        ),
        (Stage::Waiting { forced, left }, BindEvent::InUse | BindEvent::Failed) => if left > 0 {
            (state.at(Stage::Waiting { forced, left: (left - 1) as u32 }), BindAction::TryAgain)
        } else if forced {
            (state.at(Stage::Over), BindAction::ShowRunning)
        } else {
            state.insisting()
        },
        (Stage::Stopping, BindEvent::Stopped) => state.waiting(true),
        _ => (state, BindAction::Nothing),
    }
}

/// What a newly started program does about the port.
///
/// Two copies on one machine is never what anyone wanted: the one just started takes over.
/// Where the other will not go, its page is shown.
pub fn take_over(state: TakeOver, event: BindEvent) -> (r: (TakeOver, BindAction))
    ensures
        r == taken_over(state, event),
{
    let windows = state.windows;
    let over = TakeOver { windows, stage: Stage::Over };
    let insisting = if windows {
        (TakeOver { windows, stage: Stage::Stopping }, BindAction::StopOthers)
    } else {
        (over, BindAction::ShowRunning)
    };
    match (state.stage, event) {
        (Stage::Binding, BindEvent::Bound) => (over, BindAction::Run { forced: false }),
        (Stage::Binding, BindEvent::InUse) => (
            TakeOver { windows, stage: Stage::Asking },
            BindAction::AskToQuit,
        ),
        (Stage::Binding, BindEvent::Failed) => (over, BindAction::GiveUp),
        (Stage::Asking, BindEvent::Asked(reached)) => if reached {
            first_wait(windows, false)
        } else {
            insisting
        },
        (Stage::Waiting { forced, .. }, BindEvent::Bound) => (over, BindAction::Run { forced }),
        (Stage::Waiting { forced, left }, BindEvent::InUse | BindEvent::Failed) => if left > 0 {
            let stage = Stage::Waiting { forced, left: left - 1 };
            (TakeOver { windows, stage }, BindAction::TryAgain)
        } else if forced {
            (over, BindAction::ShowRunning)
        } else {
            insisting
        },
        (Stage::Stopping, BindEvent::Stopped) => first_wait(windows, true),
        _ => (state, BindAction::Nothing),
    }
}

fn first_wait(windows: bool, forced: bool) -> (r: (TakeOver, BindAction))
    ensures
        r == (TakeOver { windows, stage: Stage::Binding }).waiting(forced),
{
    let stage = Stage::Waiting { forced, left: TRIES - 1 };
    (TakeOver { windows, stage }, BindAction::TryAgain)
}

/// The most that can still be asked for before it is settled.
pub open spec fn actions_left(state: TakeOver) -> nat {
    match state.stage {
        Stage::Binding => 2 * TRIES as nat + 4,
        Stage::Asking => 2 * TRIES as nat + 3,
        Stage::Waiting { forced: false, left } => (TRIES + 2 + left) as nat,
        Stage::Stopping => TRIES as nat + 1,
        Stage::Waiting { forced: true, left } => (left + 1) as nat,
        Stage::Over => 0,
    }
}

/// Taking over always comes to an end: each action leaves fewer to come, whatever happens.
pub proof fn a_take_over_ends(state: TakeOver, event: BindEvent)
    requires
        state.wf(),
    ensures
        taken_over(state, event).0.wf(),
        taken_over(state, event).1 == BindAction::Nothing ==> taken_over(state, event).0 == state,
        taken_over(state, event).1 != BindAction::Nothing ==> actions_left(
            taken_over(state, event).0,
        ) < actions_left(state),
{
}

/// The program runs exactly where it has just got the port it tried, and no other copy is
/// stopped but on Windows.
pub proof fn a_take_over_runs_on_its_port(state: TakeOver, event: BindEvent)
    ensures
        taken_over(state, event).1 is Run <==> event == BindEvent::Bound && (state.stage is Binding
            || state.stage is Waiting),
        taken_over(state, event).1 == BindAction::StopOthers ==> state.windows,
{
}

/// Where taking over stands when the port was tried again `n` times in vain.
pub open spec fn tried_in_vain(state: TakeOver, n: nat) -> TakeOver
    decreases n,
{
    if n == 0 {
        state
    } else {
        taken_over(tried_in_vain(state, (n - 1) as nat), BindEvent::InUse).0
    }
}

/// The port is tried exactly as often as it should be: short of that, another try in vain is
/// followed by the next, and the last one is not.
pub proof fn the_port_is_tried_so_often(state: TakeOver, forced: bool, n: nat)
    requires
        n < TRIES,
    ensures
        (taken_over(
            tried_in_vain(state.waiting(forced).0, n),
            BindEvent::InUse,
        ).1 == BindAction::TryAgain) == (n + 1 < TRIES),
        tried_in_vain(state.waiting(forced).0, n).stage == (Stage::Waiting {
            forced,
            left: (TRIES - 1 - n) as u32,
        }),
    decreases n,
{
    if n > 0 {
        the_port_is_tried_so_often(state, forced, (n - 1) as nat);
    }
}

// ---------------------------------------------------------------- which machine was first
/// Whether this is the machine seam was installed on, and whether to write that down. Only
/// dialling out makes a machine one that joined; having paired peers does not.
pub fn first_machine(joined: bool, marked: bool) -> (r: (bool, bool))
    ensures
        r.0 == !joined,
        r.1 == (!joined && !marked),
{
    (!joined, !joined && !marked)
}

/// Whether to write down that this machine joined a fleet: it was told to dial somewhere,
/// and that is not written down yet.
pub fn joins_now(addresses: usize, joined: bool) -> (b: bool)
    ensures
        b == (addresses > 0 && !joined),
{
    addresses > 0 && !joined
}

/// Whether a warning that is given at most every five seconds is due.
pub fn warning_is_due(millis_since_last: Option<u64>) -> (b: bool)
    ensures
        b == (millis_since_last matches Some(ms) ==> ms > 5_000),
{
    match millis_since_last {
        Some(ms) => ms > 5_000,
        None => true,
    }
}

// ---------------------------------------------------------------- what a copy is started with
/// A copy is started as this one was: it never asks for more rights again, tries the same
/// port where one was given, dials every address in order, and opens the page just where
/// this one would.
pub proof fn a_copy_is_started_alike(port: u16, connect: Seq<Seq<char>>, open_ui: bool, i: int)
    ensures
        ({
            let args = relaunched(port, connect, open_ui);
            let at = if port != 0 {
                4int
            } else {
                2
            };
            &&& args.len() == at + 2 * connect.len() + (if open_ui {
                0int
            } else {
                1
            })
            &&& args[0] == "run"@ && args[1] == "--no-elevate"@
            &&& port != 0 ==> args[2] == "--port"@ && args[3] == text::decimal(port as nat)
            &&& 0 <= i < connect.len() ==> args[at + 2 * i] == "--connect"@ && args[at + 2 * i + 1]
                == connect[i]
            &&& !open_ui ==> args.last() == "--no-ui"@
        }),
{
    each_address_is_dialled(connect, i);
}

proof fn each_address_is_dialled(connect: Seq<Seq<char>>, i: int)
    ensures
        connects(connect).len() == 2 * connect.len(),
        0 <= i < connect.len() ==> connects(connect)[2 * i] == "--connect"@ && connects(
            connect,
        )[2 * i + 1] == connect[i],
    decreases connect.len(),
{
    if connect.len() > 0 {
        let front = connect.drop_last();
        each_address_is_dialled(front, i);
        if 0 <= i < front.len() {
            assert(front[i] == connect[i]);
        }
    }
}

/// The program asks before it insists: a port in use is asked for, waited for where that
/// reached anyone, and only then are other copies stopped, on Windows, or the running one
/// shown, elsewhere. A port that cannot be had for another reason is given up at once.
pub proof fn a_take_over_asks_before_it_insists(state: TakeOver, event: BindEvent)
    ensures
        state.stage is Binding && event == BindEvent::InUse ==> taken_over(state, event).1
            == BindAction::AskToQuit,
        state.stage is Binding && event == BindEvent::Failed ==> taken_over(state, event).1
            == BindAction::GiveUp,
        state.stage is Asking && event == BindEvent::Asked(true) ==> taken_over(state, event).1
            == BindAction::TryAgain,
        state.stage is Asking && event == BindEvent::Asked(false) ==> taken_over(state, event).1
            == (if state.windows {
            BindAction::StopOthers
        } else {
            BindAction::ShowRunning
        }),
        state.stage is Stopping && event == BindEvent::Stopped ==> taken_over(state, event).1
            == BindAction::TryAgain,
        taken_over(state, event).1 == BindAction::StopOthers ==> state.stage is Asking
            || state.stage is Waiting,
        taken_over(state, event).1 == (BindAction::Run { forced: true }) ==> state.stage is Waiting
            && state.stage->forced,
        taken_over(state, event).0.windows == state.windows,
        taken_over(state, event).0.stage is Asking && !(state.stage is Asking)
            ==> state.stage is Binding,
        taken_over(state, event).0.stage is Waiting && taken_over(state, event).0.stage->forced && !(
        state.stage is Waiting) ==> state.stage is Stopping,
        state.stage is Waiting && taken_over(state, event).0.stage is Waiting ==> state.stage->forced
            == taken_over(state, event).0.stage->forced,
{
}

/// What is undone is what was done: the task that is removed is the one that is made, and the
/// value that is removed the one that is written, in the same place. Both start this copy,
/// quoted, and without its page.
pub proof fn what_is_undone_is_what_was_done(a: Order, b: Order, c: Order, d: Order, exe: Seq<char>)
    requires
        makes_task(a, exe),
        removes_task(b),
        writes_value(c, exe),
        removes_value(d),
    ensures
        a.program@ == b.program@,
        a.args@.len() == 10 && b.args@.len() == 4,
        a.args@[0]@ == "/create"@ && b.args@[0]@ == "/delete"@,
        a.args@[2]@ == "seam"@ && b.args@[2]@ == "seam"@,
        a.args@[1]@ == "/tn"@ && b.args@[1]@ == "/tn"@,
        a.args@[3]@ == "/tr"@,
        a.args@[4]@ == "\""@ + exe + "\" run --no-ui"@,
        a.args@[5]@ == "/sc"@ && a.args@[6]@ == "onlogon"@,
        a.args@[7]@ == "/rl"@ && a.args@[8]@ == "highest"@,
        a.args@[9]@ == "/f"@ && b.args@[3]@ == "/f"@,
        c.program@ == d.program@,
        c.args@.len() == 9 && d.args@.len() == 5,
        c.args@[0]@ == "add"@ && d.args@[0]@ == "delete"@,
        c.args@[1]@ == d.args@[1]@,
        c.args@[3]@ == "seam"@ && d.args@[3]@ == "seam"@,
        c.args@[2]@ == "/v"@ && d.args@[2]@ == "/v"@,
        c.args@[4]@ == "/t"@ && c.args@[5]@ == "REG_SZ"@,
        c.args@[6]@ == "/d"@,
        c.args@[7]@ == a.args@[4]@,
        c.args@[8]@ == "/f"@ && d.args@[4]@ == "/f"@,
{
    let (x, y) = (text::contents(a.args@), text::contents(b.args@));
    let (z, w) = (text::contents(c.args@), text::contents(d.args@));
    assert(x.len() == 10 && x.len() == a.args@.len());
    assert(y.len() == 4 && y.len() == b.args@.len());
    assert(z.len() == 9 && z.len() == c.args@.len());
    assert(w.len() == 5 && w.len() == d.args@.len());
    assert forall|i: int| 0 <= i < 10 implies x[i] == (#[trigger] a.args@[i])@ by {}
    assert forall|i: int| 0 <= i < 4 implies y[i] == (#[trigger] b.args@[i])@ by {}
    assert forall|i: int| 0 <= i < 9 implies z[i] == (#[trigger] c.args@[i])@ by {}
    assert forall|i: int| 0 <= i < 5 implies w[i] == (#[trigger] d.args@[i])@ by {}
}

} // verus!
