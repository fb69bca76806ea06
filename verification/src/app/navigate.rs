//! The actions of navigate mode.

use vstd::prelude::*;

use crate::palette::actions::KeybindAction;
use crate::text::{decimal, owned, push_decimal};

verus! {

/// An action of navigate mode.
#[derive(Debug, Clone, Copy, PartialEq, Eq, Structural)]
pub enum NavigateAction {
    NewWorkspace,
    NewWorktree,
    OpenWorktree,
    RemoveWorktree,
    RenameWorkspace,
    CloseWorkspace,
    WorkspacePicker,
    PreviousWorkspace,
    NextWorkspace,
    PreviousAgent,
    NextAgent,
    NewTab,
    RenameTab,
    PreviousTab,
    NextTab,
    CloseTab,
    RenamePane,
    FocusPaneLeft,
    FocusPaneDown,
    FocusPaneUp,
    FocusPaneRight,
    SwapPaneLeft,
    SwapPaneDown,
    SwapPaneUp,
    SwapPaneRight,
    SplitVertical,
    SplitHorizontal,
    ClosePane,
    EditScrollback,
    CopyMode,
    Zoom,
    EnterResizeMode,
    ToggleSidebar,
    CyclePaneNext,
    CyclePanePrevious,
    LastPane,
    Help,
    Settings,
    ReloadConfig,
    OpenNotificationTarget,
    Detach,
    OpenNavigator,
    OpenCommandPalette,
    SwitchWorkspace(usize),
    SwitchTab(usize),
    FocusAgent(usize),
}

/// The bindable action that does the same.
pub open spec fn as_keybind(action: NavigateAction) -> KeybindAction {
    match action {
        NavigateAction::NewWorkspace => KeybindAction::NewWorkspace,
        NavigateAction::NewWorktree => KeybindAction::NewWorktree,
        NavigateAction::OpenWorktree => KeybindAction::OpenWorktree,
        NavigateAction::RemoveWorktree => KeybindAction::RemoveWorktree,
        NavigateAction::RenameWorkspace => KeybindAction::RenameWorkspace,
        NavigateAction::CloseWorkspace => KeybindAction::CloseWorkspace,
        NavigateAction::WorkspacePicker => KeybindAction::WorkspacePicker,
        NavigateAction::PreviousWorkspace => KeybindAction::PreviousWorkspace,
        NavigateAction::NextWorkspace => KeybindAction::NextWorkspace,
        NavigateAction::PreviousAgent => KeybindAction::PreviousAgent,
        NavigateAction::NextAgent => KeybindAction::NextAgent,
        NavigateAction::NewTab => KeybindAction::NewTab,
        NavigateAction::RenameTab => KeybindAction::RenameTab,
        NavigateAction::PreviousTab => KeybindAction::PreviousTab,
        NavigateAction::NextTab => KeybindAction::NextTab,
        NavigateAction::CloseTab => KeybindAction::CloseTab,
        NavigateAction::RenamePane => KeybindAction::RenamePane,
        NavigateAction::FocusPaneLeft => KeybindAction::FocusPaneLeft,
        NavigateAction::FocusPaneDown => KeybindAction::FocusPaneDown,
        NavigateAction::FocusPaneUp => KeybindAction::FocusPaneUp,
        NavigateAction::FocusPaneRight => KeybindAction::FocusPaneRight,
        NavigateAction::SwapPaneLeft => KeybindAction::SwapPaneLeft,
        NavigateAction::SwapPaneDown => KeybindAction::SwapPaneDown,
        NavigateAction::SwapPaneUp => KeybindAction::SwapPaneUp,
        NavigateAction::SwapPaneRight => KeybindAction::SwapPaneRight,
        NavigateAction::SplitVertical => KeybindAction::SplitVertical,
        NavigateAction::SplitHorizontal => KeybindAction::SplitHorizontal,
        NavigateAction::ClosePane => KeybindAction::ClosePane,
        NavigateAction::EditScrollback => KeybindAction::EditScrollback,
        NavigateAction::CopyMode => KeybindAction::CopyMode,
        NavigateAction::Zoom => KeybindAction::Zoom,
        NavigateAction::EnterResizeMode => KeybindAction::EnterResizeMode,
        NavigateAction::ToggleSidebar => KeybindAction::ToggleSidebar,
        NavigateAction::CyclePaneNext => KeybindAction::CyclePaneNext,
        NavigateAction::CyclePanePrevious => KeybindAction::CyclePanePrevious,
        NavigateAction::LastPane => KeybindAction::LastPane,
        NavigateAction::Help => KeybindAction::Help,
        NavigateAction::Settings => KeybindAction::Settings,
        NavigateAction::ReloadConfig => KeybindAction::ReloadConfig,
        NavigateAction::OpenNotificationTarget => KeybindAction::OpenNotificationTarget,
        NavigateAction::Detach => KeybindAction::Detach,
        NavigateAction::OpenNavigator => KeybindAction::OpenNavigator,
        NavigateAction::OpenCommandPalette => KeybindAction::OpenCommandPalette,
        NavigateAction::SwitchWorkspace(i) => KeybindAction::SwitchWorkspace(i),
        NavigateAction::SwitchTab(i) => KeybindAction::SwitchTab(i),
        NavigateAction::FocusAgent(i) => KeybindAction::FocusAgent(i),
    }
}

/// The name of an action's variant, with the index where it has one.
pub open spec fn variant_text(action: NavigateAction) -> Seq<char> {
    match action {
        NavigateAction::NewWorkspace => "NewWorkspace"@,
        NavigateAction::NewWorktree => "NewWorktree"@,
        NavigateAction::OpenWorktree => "OpenWorktree"@,
        NavigateAction::RemoveWorktree => "RemoveWorktree"@,
        NavigateAction::RenameWorkspace => "RenameWorkspace"@,
        NavigateAction::CloseWorkspace => "CloseWorkspace"@,
        NavigateAction::WorkspacePicker => "WorkspacePicker"@,
        NavigateAction::PreviousWorkspace => "PreviousWorkspace"@,
        NavigateAction::NextWorkspace => "NextWorkspace"@,
        NavigateAction::PreviousAgent => "PreviousAgent"@,
        NavigateAction::NextAgent => "NextAgent"@,
        NavigateAction::NewTab => "NewTab"@,
        NavigateAction::RenameTab => "RenameTab"@,
        NavigateAction::PreviousTab => "PreviousTab"@,
        NavigateAction::NextTab => "NextTab"@,
        NavigateAction::CloseTab => "CloseTab"@,
        NavigateAction::RenamePane => "RenamePane"@,
        NavigateAction::FocusPaneLeft => "FocusPaneLeft"@,
        NavigateAction::FocusPaneDown => "FocusPaneDown"@,
        NavigateAction::FocusPaneUp => "FocusPaneUp"@,
        NavigateAction::FocusPaneRight => "FocusPaneRight"@,
        NavigateAction::SwapPaneLeft => "SwapPaneLeft"@,
        NavigateAction::SwapPaneDown => "SwapPaneDown"@,
        NavigateAction::SwapPaneUp => "SwapPaneUp"@,
        NavigateAction::SwapPaneRight => "SwapPaneRight"@,
        NavigateAction::SplitVertical => "SplitVertical"@,
        NavigateAction::SplitHorizontal => "SplitHorizontal"@,
        NavigateAction::ClosePane => "ClosePane"@,
        NavigateAction::EditScrollback => "EditScrollback"@,
        NavigateAction::CopyMode => "CopyMode"@,
        NavigateAction::Zoom => "Zoom"@,
        NavigateAction::EnterResizeMode => "EnterResizeMode"@,
        NavigateAction::ToggleSidebar => "ToggleSidebar"@,
        NavigateAction::CyclePaneNext => "CyclePaneNext"@,
        NavigateAction::CyclePanePrevious => "CyclePanePrevious"@,
        NavigateAction::LastPane => "LastPane"@,
        NavigateAction::Help => "Help"@,
        NavigateAction::Settings => "Settings"@,
        NavigateAction::ReloadConfig => "ReloadConfig"@,
        NavigateAction::OpenNotificationTarget => "OpenNotificationTarget"@,
        NavigateAction::Detach => "Detach"@,
        NavigateAction::OpenNavigator => "OpenNavigator"@,
        NavigateAction::OpenCommandPalette => "OpenCommandPalette"@,
        NavigateAction::SwitchWorkspace(i) => ("SwitchWorkspace("@ + decimal(i as nat)).push(')'),
        NavigateAction::SwitchTab(i) => ("SwitchTab("@ + decimal(i as nat)).push(')'),
        NavigateAction::FocusAgent(i) => ("FocusAgent("@ + decimal(i as nat)).push(')'),
    }
}

/// The picker that the palette offers for an action with an index.
pub open spec fn navigate_picker(action: NavigateAction) -> Option<NavigateAction> {
    match action {
        NavigateAction::SwitchWorkspace(_) => Some(NavigateAction::WorkspacePicker),
        NavigateAction::SwitchTab(_) => Some(NavigateAction::OpenNavigator),
        NavigateAction::FocusAgent(_) => Some(NavigateAction::OpenNavigator),
        _ => None,
    }
}

/// Every action in catalog order; an index stands for all of its kind.
pub open spec fn all_navigate_actions() -> Seq<NavigateAction> {
    seq![
        NavigateAction::NewWorkspace,
        NavigateAction::NewWorktree,
        NavigateAction::OpenWorktree,
        NavigateAction::RemoveWorktree,
        NavigateAction::RenameWorkspace,
        NavigateAction::CloseWorkspace,
        NavigateAction::WorkspacePicker,
        NavigateAction::PreviousWorkspace,
        NavigateAction::NextWorkspace,
        NavigateAction::PreviousAgent,
        NavigateAction::NextAgent,
        NavigateAction::NewTab,
        NavigateAction::RenameTab,
        NavigateAction::PreviousTab,
        NavigateAction::NextTab,
        NavigateAction::CloseTab,
        NavigateAction::RenamePane,
        NavigateAction::FocusPaneLeft,
        NavigateAction::FocusPaneDown,
        NavigateAction::FocusPaneUp,
        NavigateAction::FocusPaneRight,
        NavigateAction::SwapPaneLeft,
        NavigateAction::SwapPaneDown,
        NavigateAction::SwapPaneUp,
        NavigateAction::SwapPaneRight,
        NavigateAction::SplitVertical,
        NavigateAction::SplitHorizontal,
        NavigateAction::ClosePane,
        NavigateAction::EditScrollback,
        NavigateAction::CopyMode,
        NavigateAction::Zoom,
        NavigateAction::EnterResizeMode,
        NavigateAction::ToggleSidebar,
        NavigateAction::CyclePaneNext,
        NavigateAction::CyclePanePrevious,
        NavigateAction::LastPane,
        NavigateAction::Help,
        NavigateAction::Settings,
        NavigateAction::ReloadConfig,
        NavigateAction::OpenNotificationTarget,
        NavigateAction::Detach,
        NavigateAction::OpenNavigator,
        NavigateAction::OpenCommandPalette,
        NavigateAction::SwitchWorkspace(0),
        NavigateAction::SwitchTab(0),
        NavigateAction::FocusAgent(0),
    ]
}

impl NavigateAction {
    /// The bindable action that does the same.
    pub fn keybind_action(self) -> (r: KeybindAction)
        ensures
            r == as_keybind(self),
    {
        match self {
            NavigateAction::NewWorkspace => KeybindAction::NewWorkspace,
            NavigateAction::NewWorktree => KeybindAction::NewWorktree,
            NavigateAction::OpenWorktree => KeybindAction::OpenWorktree,
            NavigateAction::RemoveWorktree => KeybindAction::RemoveWorktree,
            NavigateAction::RenameWorkspace => KeybindAction::RenameWorkspace,
            NavigateAction::CloseWorkspace => KeybindAction::CloseWorkspace,
            NavigateAction::WorkspacePicker => KeybindAction::WorkspacePicker,
            NavigateAction::PreviousWorkspace => KeybindAction::PreviousWorkspace,
            NavigateAction::NextWorkspace => KeybindAction::NextWorkspace,
            NavigateAction::PreviousAgent => KeybindAction::PreviousAgent,
            NavigateAction::NextAgent => KeybindAction::NextAgent,
            NavigateAction::NewTab => KeybindAction::NewTab,
            NavigateAction::RenameTab => KeybindAction::RenameTab,
            NavigateAction::PreviousTab => KeybindAction::PreviousTab,
            NavigateAction::NextTab => KeybindAction::NextTab,
            NavigateAction::CloseTab => KeybindAction::CloseTab,
            NavigateAction::RenamePane => KeybindAction::RenamePane,
            NavigateAction::FocusPaneLeft => KeybindAction::FocusPaneLeft,
            NavigateAction::FocusPaneDown => KeybindAction::FocusPaneDown,
            NavigateAction::FocusPaneUp => KeybindAction::FocusPaneUp,
            NavigateAction::FocusPaneRight => KeybindAction::FocusPaneRight,
            NavigateAction::SwapPaneLeft => KeybindAction::SwapPaneLeft,
            NavigateAction::SwapPaneDown => KeybindAction::SwapPaneDown,
            NavigateAction::SwapPaneUp => KeybindAction::SwapPaneUp,
            NavigateAction::SwapPaneRight => KeybindAction::SwapPaneRight,
            NavigateAction::SplitVertical => KeybindAction::SplitVertical,
            NavigateAction::SplitHorizontal => KeybindAction::SplitHorizontal,
            NavigateAction::ClosePane => KeybindAction::ClosePane,
            NavigateAction::EditScrollback => KeybindAction::EditScrollback,
            NavigateAction::CopyMode => KeybindAction::CopyMode,
            NavigateAction::Zoom => KeybindAction::Zoom,
            NavigateAction::EnterResizeMode => KeybindAction::EnterResizeMode,
            NavigateAction::ToggleSidebar => KeybindAction::ToggleSidebar,
            NavigateAction::CyclePaneNext => KeybindAction::CyclePaneNext,
            NavigateAction::CyclePanePrevious => KeybindAction::CyclePanePrevious,
            NavigateAction::LastPane => KeybindAction::LastPane,
            NavigateAction::Help => KeybindAction::Help,
            NavigateAction::Settings => KeybindAction::Settings,
            NavigateAction::ReloadConfig => KeybindAction::ReloadConfig,
            NavigateAction::OpenNotificationTarget => KeybindAction::OpenNotificationTarget,
            NavigateAction::Detach => KeybindAction::Detach,
            NavigateAction::OpenNavigator => KeybindAction::OpenNavigator,
            NavigateAction::OpenCommandPalette => KeybindAction::OpenCommandPalette,
            NavigateAction::SwitchWorkspace(i) => KeybindAction::SwitchWorkspace(i),
            NavigateAction::SwitchTab(i) => KeybindAction::SwitchTab(i),
            NavigateAction::FocusAgent(i) => KeybindAction::FocusAgent(i),
        }
    }

    /// The picker that the palette offers for an action with an index.
    pub fn picker(self) -> (r: Option<NavigateAction>)
        ensures
            r == navigate_picker(self),
    {
        match self {
            NavigateAction::SwitchWorkspace(_) => Some(NavigateAction::WorkspacePicker),
            NavigateAction::SwitchTab(_) => Some(NavigateAction::OpenNavigator),
            NavigateAction::FocusAgent(_) => Some(NavigateAction::OpenNavigator),
            _ => None,
        }
    }

    /// The name of the variant, with the index where it has one.
    pub fn variant_name(self) -> (r: String)
        ensures
            r@ == variant_text(self),
    {
        match self {
            NavigateAction::NewWorkspace => owned("NewWorkspace"),
            NavigateAction::NewWorktree => owned("NewWorktree"),
            NavigateAction::OpenWorktree => owned("OpenWorktree"),
            NavigateAction::RemoveWorktree => owned("RemoveWorktree"),
            NavigateAction::RenameWorkspace => owned("RenameWorkspace"),
            NavigateAction::CloseWorkspace => owned("CloseWorkspace"),
            NavigateAction::WorkspacePicker => owned("WorkspacePicker"),
            NavigateAction::PreviousWorkspace => owned("PreviousWorkspace"),
            NavigateAction::NextWorkspace => owned("NextWorkspace"),
            NavigateAction::PreviousAgent => owned("PreviousAgent"),
            NavigateAction::NextAgent => owned("NextAgent"),
            NavigateAction::NewTab => owned("NewTab"),
            NavigateAction::RenameTab => owned("RenameTab"),
            NavigateAction::PreviousTab => owned("PreviousTab"),
            NavigateAction::NextTab => owned("NextTab"),
            NavigateAction::CloseTab => owned("CloseTab"),
            NavigateAction::RenamePane => owned("RenamePane"),
            NavigateAction::FocusPaneLeft => owned("FocusPaneLeft"),
            NavigateAction::FocusPaneDown => owned("FocusPaneDown"),
            NavigateAction::FocusPaneUp => owned("FocusPaneUp"),
            NavigateAction::FocusPaneRight => owned("FocusPaneRight"),
            NavigateAction::SwapPaneLeft => owned("SwapPaneLeft"),
            NavigateAction::SwapPaneDown => owned("SwapPaneDown"),
            NavigateAction::SwapPaneUp => owned("SwapPaneUp"),
            NavigateAction::SwapPaneRight => owned("SwapPaneRight"),
            NavigateAction::SplitVertical => owned("SplitVertical"),
            NavigateAction::SplitHorizontal => owned("SplitHorizontal"),
            NavigateAction::ClosePane => owned("ClosePane"),
            NavigateAction::EditScrollback => owned("EditScrollback"),
            NavigateAction::CopyMode => owned("CopyMode"),
            NavigateAction::Zoom => owned("Zoom"),
            NavigateAction::EnterResizeMode => owned("EnterResizeMode"),
            NavigateAction::ToggleSidebar => owned("ToggleSidebar"),
            NavigateAction::CyclePaneNext => owned("CyclePaneNext"),
            NavigateAction::CyclePanePrevious => owned("CyclePanePrevious"),
            NavigateAction::LastPane => owned("LastPane"),
            NavigateAction::Help => owned("Help"),
            NavigateAction::Settings => owned("Settings"),
            NavigateAction::ReloadConfig => owned("ReloadConfig"),
            NavigateAction::OpenNotificationTarget => owned("OpenNotificationTarget"),
            NavigateAction::Detach => owned("Detach"),
            NavigateAction::OpenNavigator => owned("OpenNavigator"),
            NavigateAction::OpenCommandPalette => owned("OpenCommandPalette"),
            NavigateAction::SwitchWorkspace(i) => indexed("SwitchWorkspace(", i),
            NavigateAction::SwitchTab(i) => indexed("SwitchTab(", i),
            NavigateAction::FocusAgent(i) => indexed("FocusAgent(", i),
        }
    }
}

fn indexed(start: &str, i: usize) -> (r: String)
    ensures
        r@ == (start@ + decimal(i as nat)).push(')'),
{
    let mut r = owned(start);
    push_decimal(&mut r, i as u64);
    r.push(')');
    r
}

/// Every action in catalog order.
pub fn all_builtin_actions() -> (r: Vec<NavigateAction>)
    ensures
        r@ == all_navigate_actions(),
{
    let r = vec![
        NavigateAction::NewWorkspace,
        NavigateAction::NewWorktree,
        NavigateAction::OpenWorktree,
        NavigateAction::RemoveWorktree,
        NavigateAction::RenameWorkspace,
        NavigateAction::CloseWorkspace,
        NavigateAction::WorkspacePicker,
        NavigateAction::PreviousWorkspace,
        NavigateAction::NextWorkspace,
        NavigateAction::PreviousAgent,
        NavigateAction::NextAgent,
        NavigateAction::NewTab,
        NavigateAction::RenameTab,
        NavigateAction::PreviousTab,
        NavigateAction::NextTab,
        NavigateAction::CloseTab,
        NavigateAction::RenamePane,
        NavigateAction::FocusPaneLeft,
        NavigateAction::FocusPaneDown,
        NavigateAction::FocusPaneUp,
        NavigateAction::FocusPaneRight,
        NavigateAction::SwapPaneLeft,
        NavigateAction::SwapPaneDown,
        NavigateAction::SwapPaneUp,
        NavigateAction::SwapPaneRight,
        NavigateAction::SplitVertical,
        NavigateAction::SplitHorizontal,
        NavigateAction::ClosePane,
        NavigateAction::EditScrollback,
        NavigateAction::CopyMode,
        NavigateAction::Zoom,
        NavigateAction::EnterResizeMode,
        NavigateAction::ToggleSidebar,
        NavigateAction::CyclePaneNext,
        NavigateAction::CyclePanePrevious,
        NavigateAction::LastPane,
        NavigateAction::Help,
        NavigateAction::Settings,
        NavigateAction::ReloadConfig,
        NavigateAction::OpenNotificationTarget,
        NavigateAction::Detach,
        NavigateAction::OpenNavigator,
        NavigateAction::OpenCommandPalette,
        NavigateAction::SwitchWorkspace(0),
        NavigateAction::SwitchTab(0),
        NavigateAction::FocusAgent(0),
    ];
    assert(r@ =~= all_navigate_actions());
    r
}

/// Every action without an index is in the catalog.
pub proof fn law_navigate_catalog_is_complete(action: NavigateAction)
    requires
        navigate_picker(action) is None,
    ensures
        all_navigate_actions().contains(action),
{
    let all = all_navigate_actions();
    match action {
        NavigateAction::NewWorkspace => {
            assert(all[0] == action);
        },
        NavigateAction::NewWorktree => {
            assert(all[1] == action);
        },
        NavigateAction::OpenWorktree => {
            assert(all[2] == action);
        },
        NavigateAction::RemoveWorktree => {
            assert(all[3] == action);
        },
        NavigateAction::RenameWorkspace => {
            assert(all[4] == action);
        },
        NavigateAction::CloseWorkspace => {
            assert(all[5] == action);
        },
        NavigateAction::WorkspacePicker => {
            assert(all[6] == action);
        },
        NavigateAction::PreviousWorkspace => {
            assert(all[7] == action);
        },
        NavigateAction::NextWorkspace => {
            assert(all[8] == action);
        },
        NavigateAction::PreviousAgent => {
            assert(all[9] == action);
        },
        NavigateAction::NextAgent => {
            assert(all[10] == action);
        },
        NavigateAction::NewTab => {
            assert(all[11] == action);
        },
        NavigateAction::RenameTab => {
            assert(all[12] == action);
        },
        NavigateAction::PreviousTab => {
            assert(all[13] == action);
        },
        NavigateAction::NextTab => {
            assert(all[14] == action);
        },
        NavigateAction::CloseTab => {
            assert(all[15] == action);
        },
        NavigateAction::RenamePane => {
            assert(all[16] == action);
        },
        NavigateAction::FocusPaneLeft => {
            assert(all[17] == action);
        },
        NavigateAction::FocusPaneDown => {
            assert(all[18] == action);
        },
        NavigateAction::FocusPaneUp => {
            assert(all[19] == action);
        },
        NavigateAction::FocusPaneRight => {
            assert(all[20] == action);
        },
        NavigateAction::SwapPaneLeft => {
            assert(all[21] == action);
        },
        NavigateAction::SwapPaneDown => {
            assert(all[22] == action);
        },
        NavigateAction::SwapPaneUp => {
            assert(all[23] == action);
        },
        NavigateAction::SwapPaneRight => {
            assert(all[24] == action);
        },
        NavigateAction::SplitVertical => {
            assert(all[25] == action);
        },
        NavigateAction::SplitHorizontal => {
            assert(all[26] == action);
        },
        NavigateAction::ClosePane => {
            assert(all[27] == action);
        },
        NavigateAction::EditScrollback => {
            assert(all[28] == action);
        },
        NavigateAction::CopyMode => {
            assert(all[29] == action);
        },
        NavigateAction::Zoom => {
            assert(all[30] == action);
        },
        NavigateAction::EnterResizeMode => {
            assert(all[31] == action);
        },
        NavigateAction::ToggleSidebar => {
            assert(all[32] == action);
        },
        NavigateAction::CyclePaneNext => {
            assert(all[33] == action);
        },
        NavigateAction::CyclePanePrevious => {
            assert(all[34] == action);
        },
        NavigateAction::LastPane => {
            assert(all[35] == action);
        },
        NavigateAction::Help => {
            assert(all[36] == action);
        },
        NavigateAction::Settings => {
            assert(all[37] == action);
        },
        NavigateAction::ReloadConfig => {
            assert(all[38] == action);
        },
        NavigateAction::OpenNotificationTarget => {
            assert(all[39] == action);
        },
        NavigateAction::Detach => {
            assert(all[40] == action);
        },
        NavigateAction::OpenNavigator => {
            assert(all[41] == action);
        },
        _ => {
            assert(all[42] == action);
        },
    }
}

/// Different actions are bound by different chords.
pub proof fn law_actions_are_bound_apart(a: NavigateAction, b: NavigateAction)
    requires
        as_keybind(a) == as_keybind(b),
    ensures
        a == b,
{
}

/// An action with an index is offered as the picker for its kind: a workspace in
/// the picker of workspaces, a tab or an agent in the navigator.
pub proof fn law_indexes_lead_to_pickers(action: NavigateAction, i: usize)
    ensures
        navigate_picker(NavigateAction::SwitchWorkspace(i)) == Some(
            NavigateAction::WorkspacePicker,
        ),
        navigate_picker(NavigateAction::SwitchTab(i)) == Some(NavigateAction::OpenNavigator),
        navigate_picker(NavigateAction::FocusAgent(i)) == Some(NavigateAction::OpenNavigator),
        navigate_picker(action) is Some ==> action is SwitchWorkspace || action is SwitchTab
            || action is FocusAgent,
{
}

/// Actions without an index are told apart by the names of their variants.
#[verifier::spinoff_prover]
pub proof fn law_variants_tell_actions_apart(a: NavigateAction, b: NavigateAction)
    requires
        navigate_picker(a) is None,
        navigate_picker(b) is None,
        variant_text(a) == variant_text(b),
    ensures
        a == b,
{
    reveal_strlit("NewWorkspace");
    reveal_strlit("NewWorktree");
    reveal_strlit("OpenWorktree");
    reveal_strlit("RemoveWorktree");
    reveal_strlit("RenameWorkspace");
    reveal_strlit("CloseWorkspace");
    reveal_strlit("WorkspacePicker");
    reveal_strlit("PreviousWorkspace");
    reveal_strlit("NextWorkspace");
    reveal_strlit("PreviousAgent");
    reveal_strlit("NextAgent");
    reveal_strlit("NewTab");
    reveal_strlit("RenameTab");
    reveal_strlit("PreviousTab");
    reveal_strlit("NextTab");
    reveal_strlit("CloseTab");
    reveal_strlit("RenamePane");
    reveal_strlit("FocusPaneLeft");
    reveal_strlit("FocusPaneDown");
    reveal_strlit("FocusPaneUp");
    reveal_strlit("FocusPaneRight");
    reveal_strlit("SwapPaneLeft");
    reveal_strlit("SwapPaneDown");
    reveal_strlit("SwapPaneUp");
    reveal_strlit("SwapPaneRight");
    reveal_strlit("SplitVertical");
    reveal_strlit("SplitHorizontal");
    reveal_strlit("ClosePane");
    reveal_strlit("EditScrollback");
    reveal_strlit("CopyMode");
    reveal_strlit("Zoom");
    reveal_strlit("EnterResizeMode");
    reveal_strlit("ToggleSidebar");
    reveal_strlit("CyclePaneNext");
    reveal_strlit("CyclePanePrevious");
    reveal_strlit("LastPane");
    reveal_strlit("Help");
    reveal_strlit("Settings");
    reveal_strlit("ReloadConfig");
    reveal_strlit("OpenNotificationTarget");
    reveal_strlit("Detach");
    reveal_strlit("OpenNavigator");
    reveal_strlit("OpenCommandPalette");
    let x = variant_text(a);
    let y = variant_text(b);
    assert(x.len() == y.len());
    assert(x[2] == y[2]);
    assert(x[9] == y[9]);
}

} // verus!
