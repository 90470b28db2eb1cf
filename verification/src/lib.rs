//! Logic of a fullscreen application launcher: a categorized application
//! catalog grouped from a flat configuration list, the tab/selection state
//! machine with its redraw contract, the workspace resolver that picks the
//! smallest free workspace id out of a window-manager report, the launch
//! sequence for a chosen entry, and the row models of the visible tab with
//! their icon-caching policy.

pub mod catalog;
pub mod launch;
pub mod state;
pub mod ui;
pub mod workspace;
