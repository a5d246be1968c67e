use seam::startup::{
    child_has_started, confirmed, first_machine, is_fossil, joins_now, launch_agent,
    relaunch_args, repair_start_at_login_path, set_start_at_login, take_over, warning_is_due,
    BindAction, BindEvent, Repair, Stage, TakeOver,
};

#[test]
fn the_launch_agent_starts_this_program() {
    let plist = launch_agent("/Applications/seam");
    assert!(plist.starts_with("<?xml version=\"1.0\" encoding=\"UTF-8\"?>\n"));
    assert!(plist.contains("<string>/Applications/seam</string>"));
    assert!(plist.contains("run"));
}

#[test]
fn starting_at_login_prefers_the_task_and_falls_back_to_the_key() {
    let exe = r"C:\seam\seam.exe";
    let plan = set_start_at_login(true, true, exe);
    let task = plan.attempt.expect("an elevated program makes the task");
    assert_eq!(task.program, "schtasks");
    assert_eq!(
        task.args,
        ["/create", "/tn", "seam", "/tr", "\"C:\\seam\\seam.exe\" run --no-ui", "/sc", "onlogon",
         "/rl", "highest", "/f"]
    );
    let plan = set_start_at_login(true, false, exe);
    assert!(plan.attempt.is_none());
    assert_eq!(plan.otherwise.len() + plan.settled.len(), 1);
    let off = set_start_at_login(false, true, exe);
    assert!(off.attempt.is_none());
    assert!(off.settled.iter().chain(&off.otherwise).all(|o| !o.args.contains(&"add".to_string())));
}

#[test]
fn a_moved_program_repairs_its_own_record() {
    let exe = r"C:\new\seam.exe";
    assert_eq!(repair_start_at_login_path(false, false, None, exe), Repair::Nothing);
    assert_eq!(
        repair_start_at_login_path(true, false, Some(r#""C:\new\seam.exe" run"#), exe),
        Repair::Nothing
    );
    let Repair::Write(order) =
        repair_start_at_login_path(true, false, Some(r#""C:\old\seam.exe" run"#), exe)
    else {
        panic!("the record names another program");
    };
    assert_eq!(order.program, "reg");
    assert!(order.args.iter().any(|a| a.contains(exe)));
}

#[test]
fn old_copies_are_recognised_by_their_name() {
    assert!(is_fossil("seam-0.9.1.exe"));
    assert!(is_fossil("SEAM-1.EXE"));
    assert!(!is_fossil("seam.exe"));
    assert!(!is_fossil("seam-notes.txt"));
    assert!(!is_fossil("other-seam-1.exe"));
}

#[test]
fn a_relaunched_copy_gets_the_same_arguments() {
    assert_eq!(relaunch_args(0, &vec![], true), ["run", "--no-elevate"]);
    assert_eq!(
        relaunch_args(7, &vec!["a:1".into(), "b:2".into()], false),
        ["run", "--no-elevate", "--port", "7", "--connect", "a:1", "--connect", "b:2", "--no-ui"]
    );
    assert!(child_has_started("", "5000"));
    assert!(child_has_started("4000", "5000"));
    assert!(!child_has_started("5000", "5000"));
    assert!(!child_has_started("5000", ""));
}

#[test]
fn only_a_yes_is_a_yes() {
    for yes in ["y", "Y\n", " yes ", "YES"] {
        assert!(confirmed(yes), "{yes:?}");
    }
    for no in ["", "n", "yeah", "y e s"] {
        assert!(!confirmed(no), "{no:?}");
    }
}

#[test]
fn only_dialling_out_makes_a_machine_one_that_joined() {
    assert_eq!(first_machine(false, false), (true, true));
    assert_eq!(first_machine(false, true), (true, false));
    assert_eq!(first_machine(true, false), (false, false));
    assert!(joins_now(1, false));
    assert!(!joins_now(0, false));
    assert!(!joins_now(2, true));
}

#[test]
fn a_warning_comes_at_most_every_five_seconds() {
    assert!(warning_is_due(None));
    assert!(!warning_is_due(Some(5_000)));
    assert!(warning_is_due(Some(5_001)));
}

/// Answer each action and give all of them; the port is free at the given try.
fn taking_over(windows: bool, reached: bool, free_at: usize) -> Vec<BindAction> {
    let mut tries = 0;
    let mut state = TakeOver::begin(windows);
    let mut actions = vec![];
    let mut event = BindEvent::InUse;
    loop {
        let (next, action) = take_over(state, event);
        state = next;
        actions.push(action);
        event = match action {
            BindAction::AskToQuit => BindEvent::Asked(reached),
            BindAction::StopOthers => BindEvent::Stopped,
            BindAction::TryAgain => {
                tries += 1;
                if tries == free_at { BindEvent::Bound } else { BindEvent::InUse }
            }
            _ => return actions,
        };
    }
}

fn tries(actions: &[BindAction]) -> usize {
    actions.iter().filter(|action| **action == BindAction::TryAgain).count()
}

#[test]
fn a_free_port_is_simply_used() {
    let (state, action) = take_over(TakeOver::begin(true), BindEvent::Bound);
    assert_eq!((state.stage, action), (Stage::Over, BindAction::Run { forced: false }));
    let (_, action) = take_over(TakeOver::begin(true), BindEvent::Failed);
    assert_eq!(action, BindAction::GiveUp, "only a port in use is taken over");
}

#[test]
fn a_running_copy_is_asked_to_quit_first() {
    let actions = taking_over(false, true, 3);
    assert_eq!(actions[0], BindAction::AskToQuit);
    assert_eq!(tries(&actions), 3);
    assert_eq!(actions.last(), Some(&BindAction::Run { forced: false }));
    // Any other failure while waiting is tried again too.
    let waiting = TakeOver { windows: false, stage: Stage::Waiting { forced: false, left: 1 } };
    assert_eq!(take_over(waiting, BindEvent::Failed).1, BindAction::TryAgain);
}

#[test]
fn a_copy_that_will_not_quit_is_stopped_on_windows_and_shown_elsewhere() {
    let actions = taking_over(false, true, 0);
    assert_eq!(tries(&actions), 20);
    assert_eq!(actions.last(), Some(&BindAction::ShowRunning));
    assert_eq!(
        taking_over(false, false, 0),
        [BindAction::AskToQuit, BindAction::ShowRunning]
    );
    let actions = taking_over(true, true, 0);
    assert_eq!(tries(&actions), 40);
    assert_eq!(actions[21], BindAction::StopOthers);
    assert_eq!(actions.last(), Some(&BindAction::ShowRunning));
    let actions = taking_over(true, false, 1);
    assert_eq!(actions[1], BindAction::StopOthers);
    assert_eq!(actions.last(), Some(&BindAction::Run { forced: true }));
}

#[test]
fn an_answer_to_nothing_changes_nothing() {
    let state = TakeOver { windows: true, stage: Stage::Over };
    assert_eq!(take_over(state, BindEvent::Bound), (state, BindAction::Nothing));
}
