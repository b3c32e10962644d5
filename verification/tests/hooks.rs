use lox_linein_bridge::hooks::{command_argv, shell_argv, Hook, HookCall, HookRunner};
use lox_linein_bridge::models::SourceCommand;

/// Stands for the file that the scripts append a line to, so that a test can count how often a
/// hook ran.
fn append_cmd(tag: &str) -> String {
    format!("printf '{}\\n'", tag)
}

fn run(log: &mut String, call: Option<HookCall>) {
    if let Some(call) = call {
        let argv = shell_argv(&call.script);
        assert_eq!(argv[0], "sh");
        assert_eq!(argv[1], "-c");
        for tag in ["start", "stop"] {
            if argv[2] == append_cmd(tag) {
                log.push_str(tag);
                log.push('\n');
            }
        }
    }
}

#[test]
fn repeated_polls_run_the_hook_once_per_transition() {
    let mut log = String::new();
    let mut hooks = HookRunner::new(Some(append_cmd("start")), Some(append_cmd("stop")));

    // The server repeats desired state on every poll; only changes may run a hook.
    run(&mut log, hooks.apply(true));
    run(&mut log, hooks.apply(true));
    run(&mut log, hooks.apply(true));
    assert_eq!(log, "start\n");

    run(&mut log, hooks.apply(false));
    run(&mut log, hooks.apply(false));
    assert_eq!(log, "start\nstop\n");

    run(&mut log, hooks.apply(true));
    assert_eq!(log, "start\nstop\nstart\n");
}

#[test]
fn starting_up_inactive_does_not_run_the_stop_hook() {
    let mut log = String::new();
    let mut hooks = HookRunner::new(None, Some(append_cmd("stop")));
    run(&mut log, hooks.apply(false));
    assert_eq!(
        log, "",
        "nothing was switched on, so nothing to switch off"
    );
}

#[test]
fn shutdown_runs_stop_only_while_active() {
    let mut log = String::new();
    let mut hooks = HookRunner::new(None, Some(append_cmd("stop")));
    run(&mut log, hooks.shutdown());
    assert_eq!(
        log, "",
        "never active: shutdown must not run the stop hook"
    );

    run(&mut log, hooks.apply(true));
    run(&mut log, hooks.shutdown());
    assert_eq!(log, "stop\n");
    run(&mut log, hooks.shutdown());
    assert_eq!(log, "stop\n", "shutdown is idempotent");
}

#[test]
fn a_failing_hook_is_contained() {
    let mut hooks = HookRunner::new(Some("exit 3".to_string()), None);
    let call = hooks.apply(true).expect("the start hook is due");
    assert_eq!(call.script, "exit 3");
    // What becomes of the script has no way back: the next change is handled as ever.
    assert!(hooks.apply(true).is_none());
    assert!(hooks.apply(false).is_none());
    assert!(hooks.apply(true).is_some());
}

#[test]
fn hooks_are_told_apart() {
    let mut hooks = HookRunner::new(Some("on".to_string()), Some("off".to_string()));
    let start = hooks.apply(true).expect("start is due");
    assert_eq!(start.hook, Hook::OnStart);
    assert_eq!(start.hook.label(), "on_start");
    assert_eq!(start.script, "on");
    let stop = hooks.apply(false).expect("stop is due");
    assert_eq!(stop.hook, Hook::OnStop);
    assert_eq!(stop.hook.label(), "on_stop");
    assert_eq!(stop.script, "off");
}

#[test]
fn a_change_without_a_script_still_counts() {
    let mut hooks = HookRunner::new(None, Some("off".to_string()));
    assert!(hooks.apply(true).is_none());
    assert_eq!(hooks.apply(false).expect("stop is due").script, "off");
    // A poll after shutdown starts anew.
    assert!(hooks.apply(true).is_none());
    assert_eq!(hooks.shutdown().expect("stop is due").script, "off");
    assert!(hooks.apply(false).is_none());
}

#[test]
fn either_script_configures_the_hooks() {
    assert!(!HookRunner::new(None, None).is_configured());
    assert!(HookRunner::new(Some("a".to_string()), None).is_configured());
    assert!(HookRunner::new(None, Some("b".to_string())).is_configured());
}

#[test]
fn a_command_is_the_first_parameter_of_an_untouched_script() {
    let command = SourceCommand {
        command: "seek".to_string(),
        args: vec!["10".to_string(), "a b".to_string()],
    };
    assert_eq!(
        command_argv("power.sh \"$@\"", &command),
        ["sh", "-c", "power.sh \"$@\"", "on_command", "seek", "10", "a b"]
    );
    let bare = SourceCommand {
        command: "start".to_string(),
        args: vec![],
    };
    assert_eq!(
        command_argv("x", &bare),
        ["sh", "-c", "x", "on_command", "start"]
    );
}
