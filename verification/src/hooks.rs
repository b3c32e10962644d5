//! The scripts that run when the server selects or deselects this input.
//!
//! The server repeats the state it wants on every poll, so only a change runs a
//! hook: the scripts drive real hardware, and running the start hook on each poll
//! would keep switching on a device that is on already.

use vstd::prelude::*;

use crate::models::SourceCommand;

verus! {

/// The two hooks.
#[derive(Debug, Clone, Copy, PartialEq, Eq, Structural)]
pub enum Hook {
    OnStart,
    OnStop,
}

/// A script to run.
#[derive(Debug)]
pub struct HookCall {
    pub hook: Hook,
    pub script: String,
}

/// What can happen to the hooks.
pub enum HookEvent {
    /// The server reports the state it wants.
    Poll(bool),
    /// The bridge goes away.
    Shutdown,
}

/// The hook that is due on an event. `state` is the last state acted on, absent
/// until the server first reports one: a bridge that starts up while the input is
/// deselected has nothing to switch off.
pub open spec fn hook_due(state: Option<bool>, event: HookEvent) -> Option<Hook> {
    match event {
        HookEvent::Poll(active) => if active && state != Some(true) {
            Some(Hook::OnStart)
        } else if !active && state == Some(true) {
            Some(Hook::OnStop)
        } else {
            None
        },
        HookEvent::Shutdown => if state == Some(true) {
            Some(Hook::OnStop)
        } else {
            None
        },
    }
}

/// The state acted on after an event.
pub open spec fn state_after(state: Option<bool>, event: HookEvent) -> Option<bool> {
    match event {
        HookEvent::Poll(active) => Some(active),
        HookEvent::Shutdown => if state == Some(true) {
            Some(false)
        } else {
            state
        },
    }
}

/// Runs the configured scripts when the server selects or deselects this input.
#[derive(Debug)]
pub struct HookRunner {
    on_start: Option<String>,
    on_stop: Option<String>,
    state: Option<bool>,
}

/// What a [`HookRunner`] stands for.
pub struct HookView {
    pub on_start: Option<Seq<char>>,
    pub on_stop: Option<Seq<char>>,
    /// The last state acted on.
    pub state: Option<bool>,
}

impl View for HookRunner {
    type V = HookView;

    closed spec fn view(&self) -> HookView {
        HookView {
            on_start: crate::text::text_of(self.on_start),
            on_stop: crate::text::text_of(self.on_stop),
            state: self.state,
        }
    }
}

/// The script of a hook, if one is configured.
pub open spec fn script_of(hooks: HookView, hook: Hook) -> Option<Seq<char>> {
    match hook {
        Hook::OnStart => hooks.on_start,
        Hook::OnStop => hooks.on_stop,
    }
}

/// Whether `call` runs the hook that is due on an event: nothing if none is due or
/// it has no script.
pub open spec fn runs_due_hook(call: Option<HookCall>, hooks: HookView, event: HookEvent) -> bool {
    match hook_due(hooks.state, event) {
        Some(hook) => match script_of(hooks, hook) {
            Some(script) => call matches Some(call) && call.hook == hook && call.script@ == script,
            None => call is None,
        },
        None => call is None,
    }
}

impl HookRunner {
    pub fn new(on_start: Option<String>, on_stop: Option<String>) -> (r: Self)
        ensures
            r@ == (HookView {
                on_start: crate::text::text_of(on_start),
                on_stop: crate::text::text_of(on_stop),
                state: None,
            }),
    {
        HookRunner { on_start, on_stop, state: None }
    }

    /// Whether there is any script.
    pub fn is_configured(&self) -> (r: bool)
        ensures
            r == (self@.on_start is Some || self@.on_stop is Some),
    {
        self.on_start.is_some() || self.on_stop.is_some()
    }

    /// Takes the state the server wants. Returns the script to run, if this is a
    /// change.
    pub fn apply(&mut self, active: bool) -> (r: Option<HookCall>)
        ensures
            runs_due_hook(r, old(self)@, HookEvent::Poll(active)),
            final(self)@ == (HookView {
                state: state_after(old(self)@.state, HookEvent::Poll(active)),
                ..old(self)@
            }),
    {
        let first = self.state.is_none();
        if let Some(current) = self.state {
            if current == active {
                return None;
            }
        }
        self.state = Some(active);
        if first && !active {
            return None;
        }
        if active {
            self.call(Hook::OnStart)
        } else {
            self.call(Hook::OnStop)
        }
    }

    /// The bridge goes away. Returns the stop script if the source is active, so
    /// that no amplifier is left switched on.
    pub fn shutdown(&mut self) -> (r: Option<HookCall>)
        ensures
            runs_due_hook(r, old(self)@, HookEvent::Shutdown),
            final(self)@ == (HookView {
                state: state_after(old(self)@.state, HookEvent::Shutdown),
                ..old(self)@
            }),
    {
        match self.state {
            Some(true) => {
                self.state = Some(false);
                self.call(Hook::OnStop)
            },
            _ => None,
        }
    }

    fn call(&self, hook: Hook) -> (r: Option<HookCall>)
        ensures
            match script_of(self@, hook) {
                Some(script) => r matches Some(call) && call.hook == hook && call.script@ == script,
                None => r is None,
            },
    {
        let script = match hook {
            Hook::OnStart => &self.on_start,
            Hook::OnStop => &self.on_stop,
        };
        match script {
            Some(script) => Some(HookCall { hook, script: script.clone() }),
            None => None,
        }
    }
}

impl Hook {
    /// The name of the hook in the configuration.
    pub fn label(&self) -> (r: &'static str)
        ensures
            r@ == (match *self {
                Hook::OnStart => "on_start"@,
                Hook::OnStop => "on_stop"@,
            }),
    {
        match self {
            Hook::OnStart => "on_start",
            Hook::OnStop => "on_stop",
        }
    }
}

/// The program and the arguments that run a script. It goes through a shell, so
/// that it can be a command with arguments.
pub fn shell_argv(script: &str) -> (r: Vec<String>)
    ensures
        r@.len() == 3,
        r@[0]@ == "sh"@,
        r@[1]@ == "-c"@,
        r@[2]@ == script@,
{
    let mut argv: Vec<String> = Vec::new();
    argv.push("sh".to_owned());
    argv.push("-c".to_owned());
    argv.push(script.to_owned());
    argv
}

/// The program and the arguments that run a script for a command. The text of the
/// script is left as it is; the command is its first positional parameter, and the
/// arguments of the command follow.
pub fn command_argv(script: &str, command: &SourceCommand) -> (r: Vec<String>)
    ensures
        r@.len() == 5 + command.args@.len(),
        r@[0]@ == "sh"@,
        r@[1]@ == "-c"@,
        r@[2]@ == script@,
        r@[3]@ == "on_command"@,
        r@[4]@ == command.command@,
        forall|i: int|
            0 <= i < command.args@.len() ==> (#[trigger] r@[5 + i])@ == command.args@[i]@,
{
    let mut argv = shell_argv(script);
    argv.push("on_command".to_owned());
    argv.push(command.command.clone());
    let mut i: usize = 0;
    while i < command.args.len()
        invariant
            i <= command.args@.len(),
            argv@.len() == 5 + i,
            argv@[0]@ == "sh"@,
            argv@[1]@ == "-c"@,
            argv@[2]@ == script@,
            argv@[3]@ == "on_command"@,
            argv@[4]@ == command.command@,
            forall|k: int| 0 <= k < i ==> (#[trigger] argv@[5 + k])@ == command.args@[k]@,
        decreases command.args@.len() - i,
    {
        argv.push(command.args[i].clone());
        i = i + 1;
    }
    argv
}

/// The state acted on after a row of events, the oldest first.
pub open spec fn state_after_all(events: Seq<HookEvent>) -> Option<bool>
    decreases events.len(),
{
    if events.len() == 0 {
        None
    } else {
        state_after(state_after_all(events.drop_last()), events.last())
    }
}

/// The hooks that are due in a row of events, in order.
pub open spec fn hooks_due(events: Seq<HookEvent>) -> Seq<Hook>
    decreases events.len(),
{
    if events.len() == 0 {
        Seq::empty()
    } else {
        match hook_due(state_after_all(events.drop_last()), events.last()) {
            Some(hook) => hooks_due(events.drop_last()).push(hook),
            None => hooks_due(events.drop_last()),
        }
    }
}

/// Start and stop take turns, whatever the server reports and however often, and
/// the first hook is the start. The source is on exactly if the last one was.
pub proof fn law_hooks_take_turns(events: Seq<HookEvent>)
    ensures
        forall|k: int|
            0 <= k < hooks_due(events).len() ==> #[trigger] hooks_due(events)[k] == (if k % 2 == 0 {
                Hook::OnStart
            } else {
                Hook::OnStop
            }),
        hooks_due(events).len() % 2 == 1 <==> state_after_all(events) == Some(true),
    decreases events.len(),
{
    if events.len() > 0 {
        law_hooks_take_turns(events.drop_last());
    }
}

/// A poll that repeats the state runs nothing and changes nothing.
pub proof fn law_repeated_poll_runs_nothing(state: Option<bool>, active: bool)
    ensures
        hook_due(state_after(state, HookEvent::Poll(active)), HookEvent::Poll(active)) is None,
        state_after(state_after(state, HookEvent::Poll(active)), HookEvent::Poll(active))
            == state_after(state, HookEvent::Poll(active)),
{
}

/// A bridge that starts up while the input is deselected runs nothing.
pub proof fn law_starting_inactive_runs_nothing()
    ensures
        hook_due(None, HookEvent::Poll(false)) is None,
{
}

/// Shutting down leaves nothing switched on: with it there are as many stops as
/// starts. Doing so again runs nothing.
pub proof fn law_shutdown_switches_off_once(events: Seq<HookEvent>)
    ensures
        ({
            let down = events.push(HookEvent::Shutdown);
            &&& state_after_all(down) != Some(true)
            &&& hooks_due(down).len() % 2 == 0
            &&& hooks_due(down.push(HookEvent::Shutdown)) == hooks_due(down)
        }),
{
    let down = events.push(HookEvent::Shutdown);
    let again = down.push(HookEvent::Shutdown);
    assert(down.drop_last() =~= events);
    assert(again.drop_last() =~= down);
    law_hooks_take_turns(down);
}

/// What the server reported last is the state, whatever came before. Shutting down turns
/// an active source off and leaves any other as it is.
pub proof fn law_state_is_the_last_report(state: Option<bool>, active: bool)
    ensures
        state_after(state, HookEvent::Poll(active)) == Some(active),
        state_after(Some(true), HookEvent::Shutdown) == Some(false),
        state != Some(true) ==> state_after(state, HookEvent::Shutdown) == state,
{
}

/// When each hook is due: the start whenever the source becomes active, the stop whenever
/// it ceases to be, and nothing otherwise.
pub proof fn law_hooks_follow_changes(state: Option<bool>, event: HookEvent)
    ensures
        ({
            let before = state == Some(true);
            let after = state_after(state, event) == Some(true);
            &&& hook_due(state, event) == Some(Hook::OnStart) <==> !before && after
            &&& hook_due(state, event) == Some(Hook::OnStop) <==> before && !after
            &&& hook_due(state, event) is None <==> before == after
        }),
{
}

/// Which script runs: where the source becomes active the start script as it is
/// configured, where it ceases to be the stop script, and none where there is no change
/// or no script.
pub proof fn law_script_of_the_change_runs(
    call: Option<HookCall>,
    hooks: HookView,
    event: HookEvent,
)
    requires
        runs_due_hook(call, hooks, event),
    ensures
        ({
            let before = hooks.state == Some(true);
            let after = state_after(hooks.state, event) == Some(true);
            &&& before == after ==> call is None
            &&& !before && after ==> match hooks.on_start {
                Some(script) => call matches Some(call) && call.hook == Hook::OnStart
                    && call.script@ == script,
                None => call is None,
            }
            &&& before && !after ==> match hooks.on_stop {
                Some(script) => call matches Some(call) && call.hook == Hook::OnStop
                    && call.script@ == script,
                None => call is None,
            }
        }),
{
}

} // verus!
