use crate::catalog::Catalog;
use crate::state::LaunchState;
use crate::workspace::{report_view, resolve_workspace, resolved_workspace};
use vstd::prelude::*;

verus! {

/// How long the launcher waits between switching workspaces and spawning the
/// application, in milliseconds.
pub const SETTLE_DELAY_MS: u64 = 100;

/// One step of the launch sequence, for the caller to carry out against the
/// window manager or the shell. Every step is best-effort: a failed step does
/// not cancel the ones after it.
#[derive(Clone, Debug)]
pub enum WmCommand {
    /// Leave the special overlay workspace.
    ToggleSpecial,
    /// Switch to the given workspace.
    SwitchWorkspace(i32),
    /// Wait `SETTLE_DELAY_MS` for the workspace switch to settle.
    SettleDelay,
    /// Spawn the command line through a shell, detached.
    RunShell(String),
}

/// The fixed launch sequence: leave the overlay, switch to the target
/// workspace, let the switch settle, then spawn the command.
pub fn launch_plan(command: &String, ws: i32) -> (p: Vec<WmCommand>)
    ensures
        p@ =~= seq![
            WmCommand::ToggleSpecial,
            WmCommand::SwitchWorkspace(ws),
            WmCommand::SettleDelay,
            WmCommand::RunShell(*command),
        ],
{
    let mut p: Vec<WmCommand> = Vec::new();
    p.push(WmCommand::ToggleSpecial);
    p.push(WmCommand::SwitchWorkspace(ws));
    p.push(WmCommand::SettleDelay);
    p.push(WmCommand::RunShell(command.clone()));
    p
}

/// Plan the launch of the application selected in `state`: when the current
/// tab and selection name an entry, resolve a workspace from the query report
/// (falling back to the default) and produce the launch sequence for that
/// entry's command; when the selection points past the tab's rows, nothing is
/// launched.
pub fn launch_selected(catalog: &Catalog, state: &LaunchState, report: Option<&Vec<u8>>) -> (p:
    Option<Vec<WmCommand>>)
    ensures
        ({
            let tab = state.current_tab as int;
            let sel = state.current_selection as int;
            let ok = tab < catalog.categories@.len() && sel < catalog.categories@[tab].apps@.len();
            &&& ok == (p is Some)
            &&& ok ==> (p matches Option::Some(cmds) && (exists|ws: i32|
                resolved_workspace(report_view(report), ws) && cmds@ =~= seq![
                    WmCommand::ToggleSpecial,
                    WmCommand::SwitchWorkspace(ws),
                    WmCommand::SettleDelay,
                    WmCommand::RunShell(catalog.categories@[tab].apps@[sel].command),
                ]))
        }),
{
    match catalog.entry_at(state.current_tab, state.current_selection) {
        Option::None => Option::None,
        Option::Some(entry) => {
            let ws = resolve_workspace(report);
            let cmds = launch_plan(&entry.command, ws);
            Option::Some(cmds)
        },
    }
}

} // verus!
