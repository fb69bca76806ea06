//! The actions a chord can be bound to, their bindings, and how the palette
//! lists them.

use vstd::prelude::*;

use crate::text::{copy_opt, copy_strings, opt_text, owned, push_text, views};

verus! {

// --- bindings -------------------------------------------------------------------

/// The chords bound to one action.
#[derive(Debug, PartialEq, Eq)]
pub struct ActionKeybinds {
    pub labels: Vec<String>,
}

/// Labels with a slash between them.
pub open spec fn slashed(labels: Seq<Seq<char>>) -> Seq<char>
    decreases labels.len(),
{
    if labels.len() == 0 {
        Seq::empty()
    } else if labels.len() == 1 {
        labels[0]
    } else {
        slashed(labels.drop_last()) + " / "@ + labels.last()
    }
}

impl ActionKeybinds {
    /// The chords as one text; none when nothing is bound.
    pub open spec fn text(self) -> Option<Seq<char>> {
        if self.labels@.len() == 0 {
            None
        } else {
            Some(slashed(views(self.labels@)))
        }
    }

    pub fn unbound() -> (r: ActionKeybinds)
        ensures
            r.text() is None,
            r.labels@.len() == 0,
    {
        ActionKeybinds { labels: Vec::new() }
    }

    /// One chord.
    pub fn bound(label: &str) -> (r: ActionKeybinds)
        ensures
            r.text() == Some(label@),
            r.labels@.len() == 1,
            r.labels@[0]@ == label@,
    {
        let mut labels: Vec<String> = Vec::new();
        labels.push(owned(label));
        ActionKeybinds { labels }
    }

    /// The chords as one text, such as `prefix+z`; `None` when nothing is bound.
    pub fn label(&self) -> (r: Option<String>)
        ensures
            opt_text(r) == self.text(),
    {
        if self.labels.len() == 0 {
            return None;
        }
        let ghost all = views(self.labels@);
        let mut out = owned(self.labels[0].as_str());
        let mut i: usize = 1;
        assert(all.take(1)[0] == all[0]);
        while i < self.labels.len()
            invariant
                1 <= i <= self.labels@.len(),
                all == views(self.labels@),
                out@ == slashed(all.take(i as int)),
            decreases self.labels@.len() - i,
        {
            push_text(&mut out, " / ");
            push_text(&mut out, self.labels[i].as_str());
            i = i + 1;
            assert(all.take(i as int).drop_last() =~= all.take(i - 1));
            assert(all.take(i as int).last() == self.labels@[i - 1]@);
        }
        assert(all.take(i as int) =~= all);
        Some(out)
    }
}

/// Where a custom command runs.
#[derive(Debug, Clone, Copy, PartialEq, Eq, Structural)]
pub enum CustomCommandAction {
    Shell,
    Pane,
}

/// A command of the user's own, with its chords.
#[derive(Debug, PartialEq, Eq)]
pub struct CustomCommandKeybind {
    pub bindings: ActionKeybinds,
    /// The user's label, or the chord where there is none.
    pub label: String,
    /// The chord, where the label is not the chord itself.
    pub keybind_display: Option<String>,
    pub command: String,
    pub action: CustomCommandAction,
    pub description: Option<String>,
}

/// A custom command, with its texts as characters.
pub struct CustomCommandView {
    pub bindings: Seq<Seq<char>>,
    pub label: Seq<char>,
    pub keybind_display: Option<Seq<char>>,
    pub command: Seq<char>,
    pub action: CustomCommandAction,
    pub description: Option<Seq<char>>,
}

impl View for CustomCommandKeybind {
    type V = CustomCommandView;

    open spec fn view(&self) -> CustomCommandView {
        CustomCommandView {
            bindings: views(self.bindings.labels@),
            label: self.label@,
            keybind_display: opt_text(self.keybind_display),
            command: self.command@,
            action: self.action,
            description: opt_text(self.description),
        }
    }
}

impl Clone for CustomCommandKeybind {
    fn clone(&self) -> (r: CustomCommandKeybind)
        ensures
            r@ == self@,
    {
        CustomCommandKeybind {
            bindings: ActionKeybinds { labels: copy_strings(&self.bindings.labels) },
            label: self.label.clone(),
            keybind_display: copy_opt(&self.keybind_display),
            command: self.command.clone(),
            action: self.action,
            description: copy_opt(&self.description),
        }
    }
}

/// Every binding of the user's configuration.
#[derive(Debug)]
pub struct Keybinds {
    pub new_workspace: ActionKeybinds,
    pub new_worktree: ActionKeybinds,
    pub open_worktree: ActionKeybinds,
    pub remove_worktree: ActionKeybinds,
    pub rename_workspace: ActionKeybinds,
    pub close_workspace: ActionKeybinds,
    pub workspace_picker: ActionKeybinds,
    pub previous_workspace: ActionKeybinds,
    pub next_workspace: ActionKeybinds,
    pub previous_agent: ActionKeybinds,
    pub next_agent: ActionKeybinds,
    pub new_tab: ActionKeybinds,
    pub rename_tab: ActionKeybinds,
    pub previous_tab: ActionKeybinds,
    pub next_tab: ActionKeybinds,
    pub move_tab_previous: ActionKeybinds,
    pub move_tab_next: ActionKeybinds,
    pub close_tab: ActionKeybinds,
    pub rename_pane: ActionKeybinds,
    pub focus_pane_left: ActionKeybinds,
    pub focus_pane_down: ActionKeybinds,
    pub focus_pane_up: ActionKeybinds,
    pub focus_pane_right: ActionKeybinds,
    pub swap_pane_left: ActionKeybinds,
    pub swap_pane_down: ActionKeybinds,
    pub swap_pane_up: ActionKeybinds,
    pub swap_pane_right: ActionKeybinds,
    pub split_vertical: ActionKeybinds,
    pub split_horizontal: ActionKeybinds,
    pub close_pane: ActionKeybinds,
    pub edit_scrollback: ActionKeybinds,
    pub copy_mode: ActionKeybinds,
    pub zoom: ActionKeybinds,
    pub resize_mode: ActionKeybinds,
    pub resize_pane_left: ActionKeybinds,
    pub resize_pane_down: ActionKeybinds,
    pub resize_pane_up: ActionKeybinds,
    pub resize_pane_right: ActionKeybinds,
    pub toggle_sidebar: ActionKeybinds,
    pub cycle_pane_next: ActionKeybinds,
    pub cycle_pane_previous: ActionKeybinds,
    pub last_pane: ActionKeybinds,
    pub help: ActionKeybinds,
    pub settings: ActionKeybinds,
    pub reload_config: ActionKeybinds,
    pub open_notification_target: ActionKeybinds,
    pub detach: ActionKeybinds,
    pub goto: ActionKeybinds,
    pub command_palette: ActionKeybinds,
    pub custom_commands: Vec<CustomCommandKeybind>,
}

impl Keybinds {
    /// Nothing bound.
    pub fn unbound() -> (r: Keybinds)
        ensures
            forall|a: KeybindAction| chord_of(r, a) is None,
            r.command_palette.text() is None,
            r.custom_commands@.len() == 0,
    {
        Keybinds {
            new_workspace: ActionKeybinds::unbound(),
            new_worktree: ActionKeybinds::unbound(),
            open_worktree: ActionKeybinds::unbound(),
            remove_worktree: ActionKeybinds::unbound(),
            rename_workspace: ActionKeybinds::unbound(),
            close_workspace: ActionKeybinds::unbound(),
            workspace_picker: ActionKeybinds::unbound(),
            previous_workspace: ActionKeybinds::unbound(),
            next_workspace: ActionKeybinds::unbound(),
            previous_agent: ActionKeybinds::unbound(),
            next_agent: ActionKeybinds::unbound(),
            new_tab: ActionKeybinds::unbound(),
            rename_tab: ActionKeybinds::unbound(),
            previous_tab: ActionKeybinds::unbound(),
            next_tab: ActionKeybinds::unbound(),
            move_tab_previous: ActionKeybinds::unbound(),
            move_tab_next: ActionKeybinds::unbound(),
            close_tab: ActionKeybinds::unbound(),
            rename_pane: ActionKeybinds::unbound(),
            focus_pane_left: ActionKeybinds::unbound(),
            focus_pane_down: ActionKeybinds::unbound(),
            focus_pane_up: ActionKeybinds::unbound(),
            focus_pane_right: ActionKeybinds::unbound(),
            swap_pane_left: ActionKeybinds::unbound(),
            swap_pane_down: ActionKeybinds::unbound(),
            swap_pane_up: ActionKeybinds::unbound(),
            swap_pane_right: ActionKeybinds::unbound(),
            split_vertical: ActionKeybinds::unbound(),
            split_horizontal: ActionKeybinds::unbound(),
            close_pane: ActionKeybinds::unbound(),
            edit_scrollback: ActionKeybinds::unbound(),
            copy_mode: ActionKeybinds::unbound(),
            zoom: ActionKeybinds::unbound(),
            resize_mode: ActionKeybinds::unbound(),
            resize_pane_left: ActionKeybinds::unbound(),
            resize_pane_down: ActionKeybinds::unbound(),
            resize_pane_up: ActionKeybinds::unbound(),
            resize_pane_right: ActionKeybinds::unbound(),
            toggle_sidebar: ActionKeybinds::unbound(),
            cycle_pane_next: ActionKeybinds::unbound(),
            cycle_pane_previous: ActionKeybinds::unbound(),
            last_pane: ActionKeybinds::unbound(),
            help: ActionKeybinds::unbound(),
            settings: ActionKeybinds::unbound(),
            reload_config: ActionKeybinds::unbound(),
            open_notification_target: ActionKeybinds::unbound(),
            detach: ActionKeybinds::unbound(),
            goto: ActionKeybinds::unbound(),
            command_palette: ActionKeybinds::unbound(),
            custom_commands: Vec::new(),
        }
    }
}

// --- actions --------------------------------------------------------------------

/// An action that a chord can be bound to.
#[derive(Debug, Clone, Copy, PartialEq, Eq, Structural)]
pub enum KeybindAction {
    NewWorkspace,
    NewWorktree,
    OpenWorktree,
    RemoveWorktree,
    RenameWorkspace,
    CloseWorkspace,
    WorkspacePicker,
    PreviousWorkspace,
    NextWorkspace,
    PreviousAgent,
    NextAgent,
    NewTab,
    RenameTab,
    PreviousTab,
    NextTab,
    MoveTabPrevious,
    MoveTabNext,
    CloseTab,
    RenamePane,
    FocusPaneLeft,
    FocusPaneDown,
    FocusPaneUp,
    FocusPaneRight,
    SwapPaneLeft,
    SwapPaneDown,
    SwapPaneUp,
    SwapPaneRight,
    SplitVertical,
    SplitHorizontal,
    ClosePane,
    EditScrollback,
    CopyMode,
    Zoom,
    EnterResizeMode,
    ResizePaneLeft,
    ResizePaneDown,
    ResizePaneUp,
    ResizePaneRight,
    ToggleSidebar,
    CyclePaneNext,
    CyclePanePrevious,
    LastPane,
    Help,
    Settings,
    ReloadConfig,
    OpenNotificationTarget,
    Detach,
    OpenNavigator,
    OpenCommandPalette,
    SwitchWorkspace(usize),
    SwitchTab(usize),
    FocusAgent(usize),
}

/// The name and description under which the palette lists an action.
pub open spec fn entry_text(action: KeybindAction) -> Option<(Seq<char>, Seq<char>)> {
    match action {
        KeybindAction::NewWorkspace => Some(("new-workspace"@, "Create a new workspace"@)),
        KeybindAction::NewWorktree => Some(("new-worktree"@, "Create a new linked worktree"@)),
        KeybindAction::OpenWorktree => Some(("open-worktree"@, "Open an existing worktree"@)),
        KeybindAction::RemoveWorktree => Some(("remove-worktree"@, "Remove a worktree"@)),
        KeybindAction::RenameWorkspace => Some(("rename-workspace"@, "Rename the current workspace"@)),
        KeybindAction::CloseWorkspace => Some(("close-workspace"@, "Close the current workspace"@)),
        KeybindAction::WorkspacePicker => Some(("workspace-picker"@, "Pick a workspace"@)),
        KeybindAction::PreviousWorkspace => Some(("previous-workspace"@, "Switch to the previous workspace"@)),
        KeybindAction::NextWorkspace => Some(("next-workspace"@, "Switch to the next workspace"@)),
        KeybindAction::PreviousAgent => Some(("previous-agent"@, "Focus the previous agent"@)),
        KeybindAction::NextAgent => Some(("next-agent"@, "Focus the next agent"@)),
        KeybindAction::NewTab => Some(("new-tab"@, "Create a new tab"@)),
        KeybindAction::RenameTab => Some(("rename-tab"@, "Rename the current tab"@)),
        KeybindAction::PreviousTab => Some(("previous-tab"@, "Switch to the previous tab"@)),
        KeybindAction::NextTab => Some(("next-tab"@, "Switch to the next tab"@)),
        KeybindAction::MoveTabPrevious => Some(("move-tab-previous"@, "Move the current tab left"@)),
        KeybindAction::MoveTabNext => Some(("move-tab-next"@, "Move the current tab right"@)),
        KeybindAction::CloseTab => Some(("close-tab"@, "Close the current tab"@)),
        KeybindAction::RenamePane => Some(("rename-pane"@, "Rename the current pane"@)),
        KeybindAction::FocusPaneLeft => Some(("focus-pane-left"@, "Focus the pane to the left"@)),
        KeybindAction::FocusPaneDown => Some(("focus-pane-down"@, "Focus the pane below"@)),
        KeybindAction::FocusPaneUp => Some(("focus-pane-up"@, "Focus the pane above"@)),
        KeybindAction::FocusPaneRight => Some(("focus-pane-right"@, "Focus the pane to the right"@)),
        KeybindAction::SwapPaneLeft => Some(("swap-pane-left"@, "Swap with the pane to the left"@)),
        KeybindAction::SwapPaneDown => Some(("swap-pane-down"@, "Swap with the pane below"@)),
        KeybindAction::SwapPaneUp => Some(("swap-pane-up"@, "Swap with the pane above"@)),
        KeybindAction::SwapPaneRight => Some(("swap-pane-right"@, "Swap with the pane to the right"@)),
        KeybindAction::SplitVertical => Some(("split-vertical"@, "Split the pane vertically"@)),
        KeybindAction::SplitHorizontal => Some(("split-horizontal"@, "Split the pane horizontally"@)),
        KeybindAction::ClosePane => Some(("close-pane"@, "Close the current pane"@)),
        KeybindAction::EditScrollback => Some(("edit-scrollback"@, "Edit the scrollback buffer"@)),
        KeybindAction::CopyMode => Some(("copy-mode"@, "Enter copy mode"@)),
        KeybindAction::Zoom => Some(("zoom"@, "Toggle pane zoom"@)),
        KeybindAction::EnterResizeMode => Some(("resize-mode"@, "Enter pane resize mode"@)),
        KeybindAction::ResizePaneLeft => Some(("resize-pane-left"@, "Resize the pane leftward"@)),
        KeybindAction::ResizePaneDown => Some(("resize-pane-down"@, "Resize the pane downward"@)),
        KeybindAction::ResizePaneUp => Some(("resize-pane-up"@, "Resize the pane upward"@)),
        KeybindAction::ResizePaneRight => Some(("resize-pane-right"@, "Resize the pane rightward"@)),
        KeybindAction::ToggleSidebar => Some(("toggle-sidebar"@, "Toggle the sidebar"@)),
        KeybindAction::CyclePaneNext => Some(("cycle-pane-next"@, "Cycle to the next pane"@)),
        KeybindAction::CyclePanePrevious => Some(("cycle-pane-previous"@, "Cycle to the previous pane"@)),
        KeybindAction::LastPane => Some(("last-pane"@, "Focus the last active pane"@)),
        KeybindAction::Help => Some(("help"@, "Open keybinding help"@)),
        KeybindAction::Settings => Some(("settings"@, "Open settings"@)),
        KeybindAction::ReloadConfig => Some(("reload-config"@, "Reload configuration"@)),
        KeybindAction::OpenNotificationTarget => Some(("open-notification-target"@, "Jump to the notification target"@)),
        KeybindAction::Detach => Some(("detach"@, "Detach from the session"@)),
        KeybindAction::OpenNavigator => Some(("navigator"@, "Open the navigator"@)),
        _ => None,
    }
}

/// The picker that stands in the palette for an action with an index.
pub open spec fn picker_of(action: KeybindAction) -> Option<KeybindAction> {
    match action {
        KeybindAction::SwitchWorkspace(_) => Some(KeybindAction::WorkspacePicker),
        KeybindAction::SwitchTab(_) => Some(KeybindAction::OpenNavigator),
        KeybindAction::FocusAgent(_) => Some(KeybindAction::OpenNavigator),
        _ => None,
    }
}

/// The chords bound to an action that the palette lists.
pub open spec fn chord_of(keybinds: Keybinds, action: KeybindAction) -> Option<Seq<char>> {
    match action {
        KeybindAction::NewWorkspace => keybinds.new_workspace.text(),
        KeybindAction::NewWorktree => keybinds.new_worktree.text(),
        KeybindAction::OpenWorktree => keybinds.open_worktree.text(),
        KeybindAction::RemoveWorktree => keybinds.remove_worktree.text(),
        KeybindAction::RenameWorkspace => keybinds.rename_workspace.text(),
        KeybindAction::CloseWorkspace => keybinds.close_workspace.text(),
        KeybindAction::WorkspacePicker => keybinds.workspace_picker.text(),
        KeybindAction::PreviousWorkspace => keybinds.previous_workspace.text(),
        KeybindAction::NextWorkspace => keybinds.next_workspace.text(),
        KeybindAction::PreviousAgent => keybinds.previous_agent.text(),
        KeybindAction::NextAgent => keybinds.next_agent.text(),
        KeybindAction::NewTab => keybinds.new_tab.text(),
        KeybindAction::RenameTab => keybinds.rename_tab.text(),
        KeybindAction::PreviousTab => keybinds.previous_tab.text(),
        KeybindAction::NextTab => keybinds.next_tab.text(),
        KeybindAction::MoveTabPrevious => keybinds.move_tab_previous.text(),
        KeybindAction::MoveTabNext => keybinds.move_tab_next.text(),
        KeybindAction::CloseTab => keybinds.close_tab.text(),
        KeybindAction::RenamePane => keybinds.rename_pane.text(),
        KeybindAction::FocusPaneLeft => keybinds.focus_pane_left.text(),
        KeybindAction::FocusPaneDown => keybinds.focus_pane_down.text(),
        KeybindAction::FocusPaneUp => keybinds.focus_pane_up.text(),
        KeybindAction::FocusPaneRight => keybinds.focus_pane_right.text(),
        KeybindAction::SwapPaneLeft => keybinds.swap_pane_left.text(),
        KeybindAction::SwapPaneDown => keybinds.swap_pane_down.text(),
        KeybindAction::SwapPaneUp => keybinds.swap_pane_up.text(),
        KeybindAction::SwapPaneRight => keybinds.swap_pane_right.text(),
        KeybindAction::SplitVertical => keybinds.split_vertical.text(),
        KeybindAction::SplitHorizontal => keybinds.split_horizontal.text(),
        KeybindAction::ClosePane => keybinds.close_pane.text(),
        KeybindAction::EditScrollback => keybinds.edit_scrollback.text(),
        KeybindAction::CopyMode => keybinds.copy_mode.text(),
        KeybindAction::Zoom => keybinds.zoom.text(),
        KeybindAction::EnterResizeMode => keybinds.resize_mode.text(),
        KeybindAction::ResizePaneLeft => keybinds.resize_pane_left.text(),
        KeybindAction::ResizePaneDown => keybinds.resize_pane_down.text(),
        KeybindAction::ResizePaneUp => keybinds.resize_pane_up.text(),
        KeybindAction::ResizePaneRight => keybinds.resize_pane_right.text(),
        KeybindAction::ToggleSidebar => keybinds.toggle_sidebar.text(),
        KeybindAction::CyclePaneNext => keybinds.cycle_pane_next.text(),
        KeybindAction::CyclePanePrevious => keybinds.cycle_pane_previous.text(),
        KeybindAction::LastPane => keybinds.last_pane.text(),
        KeybindAction::Help => keybinds.help.text(),
        KeybindAction::Settings => keybinds.settings.text(),
        KeybindAction::ReloadConfig => keybinds.reload_config.text(),
        KeybindAction::OpenNotificationTarget => keybinds.open_notification_target.text(),
        KeybindAction::Detach => keybinds.detach.text(),
        KeybindAction::OpenNavigator => keybinds.goto.text(),
        _ => None,
    }
}

/// The name and description under which the palette lists an action.
pub fn entry_of(action: KeybindAction) -> (r: Option<(&'static str, &'static str)>)
    ensures
        match r {
            Some(text) => entry_text(action) == Some((text.0@, text.1@)),
            None => entry_text(action) is None,
        },
{
    match action {
        KeybindAction::NewWorkspace => Some(("new-workspace", "Create a new workspace")),
        KeybindAction::NewWorktree => Some(("new-worktree", "Create a new linked worktree")),
        KeybindAction::OpenWorktree => Some(("open-worktree", "Open an existing worktree")),
        KeybindAction::RemoveWorktree => Some(("remove-worktree", "Remove a worktree")),
        KeybindAction::RenameWorkspace => Some(("rename-workspace", "Rename the current workspace")),
        KeybindAction::CloseWorkspace => Some(("close-workspace", "Close the current workspace")),
        KeybindAction::WorkspacePicker => Some(("workspace-picker", "Pick a workspace")),
        KeybindAction::PreviousWorkspace => Some(("previous-workspace", "Switch to the previous workspace")),
        KeybindAction::NextWorkspace => Some(("next-workspace", "Switch to the next workspace")),
        KeybindAction::PreviousAgent => Some(("previous-agent", "Focus the previous agent")),
        KeybindAction::NextAgent => Some(("next-agent", "Focus the next agent")),
        KeybindAction::NewTab => Some(("new-tab", "Create a new tab")),
        KeybindAction::RenameTab => Some(("rename-tab", "Rename the current tab")),
        KeybindAction::PreviousTab => Some(("previous-tab", "Switch to the previous tab")),
        KeybindAction::NextTab => Some(("next-tab", "Switch to the next tab")),
        KeybindAction::MoveTabPrevious => Some(("move-tab-previous", "Move the current tab left")),
        KeybindAction::MoveTabNext => Some(("move-tab-next", "Move the current tab right")),
        KeybindAction::CloseTab => Some(("close-tab", "Close the current tab")),
        KeybindAction::RenamePane => Some(("rename-pane", "Rename the current pane")),
        KeybindAction::FocusPaneLeft => Some(("focus-pane-left", "Focus the pane to the left")),
        KeybindAction::FocusPaneDown => Some(("focus-pane-down", "Focus the pane below")),
        KeybindAction::FocusPaneUp => Some(("focus-pane-up", "Focus the pane above")),
        KeybindAction::FocusPaneRight => Some(("focus-pane-right", "Focus the pane to the right")),
        KeybindAction::SwapPaneLeft => Some(("swap-pane-left", "Swap with the pane to the left")),
        KeybindAction::SwapPaneDown => Some(("swap-pane-down", "Swap with the pane below")),
        KeybindAction::SwapPaneUp => Some(("swap-pane-up", "Swap with the pane above")),
        KeybindAction::SwapPaneRight => Some(("swap-pane-right", "Swap with the pane to the right")),
        KeybindAction::SplitVertical => Some(("split-vertical", "Split the pane vertically")),
        KeybindAction::SplitHorizontal => Some(("split-horizontal", "Split the pane horizontally")),
        KeybindAction::ClosePane => Some(("close-pane", "Close the current pane")),
        KeybindAction::EditScrollback => Some(("edit-scrollback", "Edit the scrollback buffer")),
        KeybindAction::CopyMode => Some(("copy-mode", "Enter copy mode")),
        KeybindAction::Zoom => Some(("zoom", "Toggle pane zoom")),
        KeybindAction::EnterResizeMode => Some(("resize-mode", "Enter pane resize mode")),
        KeybindAction::ResizePaneLeft => Some(("resize-pane-left", "Resize the pane leftward")),
        KeybindAction::ResizePaneDown => Some(("resize-pane-down", "Resize the pane downward")),
        KeybindAction::ResizePaneUp => Some(("resize-pane-up", "Resize the pane upward")),
        KeybindAction::ResizePaneRight => Some(("resize-pane-right", "Resize the pane rightward")),
        KeybindAction::ToggleSidebar => Some(("toggle-sidebar", "Toggle the sidebar")),
        KeybindAction::CyclePaneNext => Some(("cycle-pane-next", "Cycle to the next pane")),
        KeybindAction::CyclePanePrevious => Some(("cycle-pane-previous", "Cycle to the previous pane")),
        KeybindAction::LastPane => Some(("last-pane", "Focus the last active pane")),
        KeybindAction::Help => Some(("help", "Open keybinding help")),
        KeybindAction::Settings => Some(("settings", "Open settings")),
        KeybindAction::ReloadConfig => Some(("reload-config", "Reload configuration")),
        KeybindAction::OpenNotificationTarget => Some(("open-notification-target", "Jump to the notification target")),
        KeybindAction::Detach => Some(("detach", "Detach from the session")),
        KeybindAction::OpenNavigator => Some(("navigator", "Open the navigator")),
        _ => None,
    }
}

/// The picker that stands in the palette for an action with an index.
pub fn picker_for(action: KeybindAction) -> (r: Option<KeybindAction>)
    ensures
        r == picker_of(action),
{
    match action {
        KeybindAction::SwitchWorkspace(_) => Some(KeybindAction::WorkspacePicker),
        KeybindAction::SwitchTab(_) => Some(KeybindAction::OpenNavigator),
        KeybindAction::FocusAgent(_) => Some(KeybindAction::OpenNavigator),
        _ => None,
    }
}

/// The chords bound to an action that the palette lists.
pub fn chord_label(keybinds: &Keybinds, action: KeybindAction) -> (r: Option<String>)
    ensures
        opt_text(r) == chord_of(*keybinds, action),
{
    match action {
        KeybindAction::NewWorkspace => keybinds.new_workspace.label(),
        KeybindAction::NewWorktree => keybinds.new_worktree.label(),
        KeybindAction::OpenWorktree => keybinds.open_worktree.label(),
        KeybindAction::RemoveWorktree => keybinds.remove_worktree.label(),
        KeybindAction::RenameWorkspace => keybinds.rename_workspace.label(),
        KeybindAction::CloseWorkspace => keybinds.close_workspace.label(),
        KeybindAction::WorkspacePicker => keybinds.workspace_picker.label(),
        KeybindAction::PreviousWorkspace => keybinds.previous_workspace.label(),
        KeybindAction::NextWorkspace => keybinds.next_workspace.label(),
        KeybindAction::PreviousAgent => keybinds.previous_agent.label(),
        KeybindAction::NextAgent => keybinds.next_agent.label(),
        KeybindAction::NewTab => keybinds.new_tab.label(),
        KeybindAction::RenameTab => keybinds.rename_tab.label(),
        KeybindAction::PreviousTab => keybinds.previous_tab.label(),
        KeybindAction::NextTab => keybinds.next_tab.label(),
        KeybindAction::MoveTabPrevious => keybinds.move_tab_previous.label(),
        KeybindAction::MoveTabNext => keybinds.move_tab_next.label(),
        KeybindAction::CloseTab => keybinds.close_tab.label(),
        KeybindAction::RenamePane => keybinds.rename_pane.label(),
        KeybindAction::FocusPaneLeft => keybinds.focus_pane_left.label(),
        KeybindAction::FocusPaneDown => keybinds.focus_pane_down.label(),
        KeybindAction::FocusPaneUp => keybinds.focus_pane_up.label(),
        KeybindAction::FocusPaneRight => keybinds.focus_pane_right.label(),
        KeybindAction::SwapPaneLeft => keybinds.swap_pane_left.label(),
        KeybindAction::SwapPaneDown => keybinds.swap_pane_down.label(),
        KeybindAction::SwapPaneUp => keybinds.swap_pane_up.label(),
        KeybindAction::SwapPaneRight => keybinds.swap_pane_right.label(),
        KeybindAction::SplitVertical => keybinds.split_vertical.label(),
        KeybindAction::SplitHorizontal => keybinds.split_horizontal.label(),
        KeybindAction::ClosePane => keybinds.close_pane.label(),
        KeybindAction::EditScrollback => keybinds.edit_scrollback.label(),
        KeybindAction::CopyMode => keybinds.copy_mode.label(),
        KeybindAction::Zoom => keybinds.zoom.label(),
        KeybindAction::EnterResizeMode => keybinds.resize_mode.label(),
        KeybindAction::ResizePaneLeft => keybinds.resize_pane_left.label(),
        KeybindAction::ResizePaneDown => keybinds.resize_pane_down.label(),
        KeybindAction::ResizePaneUp => keybinds.resize_pane_up.label(),
        KeybindAction::ResizePaneRight => keybinds.resize_pane_right.label(),
        KeybindAction::ToggleSidebar => keybinds.toggle_sidebar.label(),
        KeybindAction::CyclePaneNext => keybinds.cycle_pane_next.label(),
        KeybindAction::CyclePanePrevious => keybinds.cycle_pane_previous.label(),
        KeybindAction::LastPane => keybinds.last_pane.label(),
        KeybindAction::Help => keybinds.help.label(),
        KeybindAction::Settings => keybinds.settings.label(),
        KeybindAction::ReloadConfig => keybinds.reload_config.label(),
        KeybindAction::OpenNotificationTarget => keybinds.open_notification_target.label(),
        KeybindAction::Detach => keybinds.detach.label(),
        KeybindAction::OpenNavigator => keybinds.goto.label(),
        _ => None,
    }
}

/// Every action, in catalog order; an index stands for all of its kind.
pub open spec fn all_actions() -> Seq<KeybindAction> {
    seq![
        KeybindAction::NewWorkspace,
        KeybindAction::NewWorktree,
        KeybindAction::OpenWorktree,
        KeybindAction::RemoveWorktree,
        KeybindAction::RenameWorkspace,
        KeybindAction::CloseWorkspace,
        KeybindAction::WorkspacePicker,
        KeybindAction::PreviousWorkspace,
        KeybindAction::NextWorkspace,
        KeybindAction::PreviousAgent,
        KeybindAction::NextAgent,
        KeybindAction::NewTab,
        KeybindAction::RenameTab,
        KeybindAction::PreviousTab,
        KeybindAction::NextTab,
        KeybindAction::MoveTabPrevious,
        KeybindAction::MoveTabNext,
        KeybindAction::CloseTab,
        KeybindAction::RenamePane,
        KeybindAction::FocusPaneLeft,
        KeybindAction::FocusPaneDown,
        KeybindAction::FocusPaneUp,
        KeybindAction::FocusPaneRight,
        KeybindAction::SwapPaneLeft,
        KeybindAction::SwapPaneDown,
        KeybindAction::SwapPaneUp,
        KeybindAction::SwapPaneRight,
        KeybindAction::SplitVertical,
        KeybindAction::SplitHorizontal,
        KeybindAction::ClosePane,
        KeybindAction::EditScrollback,
        KeybindAction::CopyMode,
        KeybindAction::Zoom,
        KeybindAction::EnterResizeMode,
        KeybindAction::ResizePaneLeft,
        KeybindAction::ResizePaneDown,
        KeybindAction::ResizePaneUp,
        KeybindAction::ResizePaneRight,
        KeybindAction::ToggleSidebar,
        KeybindAction::CyclePaneNext,
        KeybindAction::CyclePanePrevious,
        KeybindAction::LastPane,
        KeybindAction::Help,
        KeybindAction::Settings,
        KeybindAction::ReloadConfig,
        KeybindAction::OpenNotificationTarget,
        KeybindAction::Detach,
        KeybindAction::OpenNavigator,
        KeybindAction::OpenCommandPalette,
        KeybindAction::SwitchWorkspace(0),
        KeybindAction::SwitchTab(0),
        KeybindAction::FocusAgent(0),
    ]
}

/// Every action, in catalog order.
pub fn list_actions() -> (r: Vec<KeybindAction>)
    ensures
        r@ == all_actions(),
{
    let r = vec![
        KeybindAction::NewWorkspace,
        KeybindAction::NewWorktree,
        KeybindAction::OpenWorktree,
        KeybindAction::RemoveWorktree,
        KeybindAction::RenameWorkspace,
        KeybindAction::CloseWorkspace,
        KeybindAction::WorkspacePicker,
        KeybindAction::PreviousWorkspace,
        KeybindAction::NextWorkspace,
        KeybindAction::PreviousAgent,
        KeybindAction::NextAgent,
        KeybindAction::NewTab,
        KeybindAction::RenameTab,
        KeybindAction::PreviousTab,
        KeybindAction::NextTab,
        KeybindAction::MoveTabPrevious,
        KeybindAction::MoveTabNext,
        KeybindAction::CloseTab,
        KeybindAction::RenamePane,
        KeybindAction::FocusPaneLeft,
        KeybindAction::FocusPaneDown,
        KeybindAction::FocusPaneUp,
        KeybindAction::FocusPaneRight,
        KeybindAction::SwapPaneLeft,
        KeybindAction::SwapPaneDown,
        KeybindAction::SwapPaneUp,
        KeybindAction::SwapPaneRight,
        KeybindAction::SplitVertical,
        KeybindAction::SplitHorizontal,
        KeybindAction::ClosePane,
        KeybindAction::EditScrollback,
        KeybindAction::CopyMode,
        KeybindAction::Zoom,
        KeybindAction::EnterResizeMode,
        KeybindAction::ResizePaneLeft,
        KeybindAction::ResizePaneDown,
        KeybindAction::ResizePaneUp,
        KeybindAction::ResizePaneRight,
        KeybindAction::ToggleSidebar,
        KeybindAction::CyclePaneNext,
        KeybindAction::CyclePanePrevious,
        KeybindAction::LastPane,
        KeybindAction::Help,
        KeybindAction::Settings,
        KeybindAction::ReloadConfig,
        KeybindAction::OpenNotificationTarget,
        KeybindAction::Detach,
        KeybindAction::OpenNavigator,
        KeybindAction::OpenCommandPalette,
        KeybindAction::SwitchWorkspace(0),
        KeybindAction::SwitchTab(0),
        KeybindAction::FocusAgent(0),
    ];
    assert(r@ =~= all_actions());
    r
}

/// Every action is in the catalog, whatever its index.
pub proof fn law_catalog_covers_every_action(action: KeybindAction)
    ensures
        entry_text(action) is Some ==> all_actions().contains(action),
        entry_text(action) is None && picker_of(action) is None ==> action
            == KeybindAction::OpenCommandPalette,
        picker_of(action) matches Some(target) ==> entry_text(target) is Some,
{
    let all = all_actions();
    match action {
        KeybindAction::NewWorkspace => {
            assert(all[0] == action);
        },
        KeybindAction::NewWorktree => {
            assert(all[1] == action);
        },
        KeybindAction::OpenWorktree => {
            assert(all[2] == action);
        },
        KeybindAction::RemoveWorktree => {
            assert(all[3] == action);
        },
        KeybindAction::RenameWorkspace => {
            assert(all[4] == action);
        },
        KeybindAction::CloseWorkspace => {
            assert(all[5] == action);
        },
        KeybindAction::WorkspacePicker => {
            assert(all[6] == action);
        },
        KeybindAction::PreviousWorkspace => {
            assert(all[7] == action);
        },
        KeybindAction::NextWorkspace => {
            assert(all[8] == action);
        },
        KeybindAction::PreviousAgent => {
            assert(all[9] == action);
        },
        KeybindAction::NextAgent => {
            assert(all[10] == action);
        },
        KeybindAction::NewTab => {
            assert(all[11] == action);
        },
        KeybindAction::RenameTab => {
            assert(all[12] == action);
        },
        KeybindAction::PreviousTab => {
            assert(all[13] == action);
        },
        KeybindAction::NextTab => {
            assert(all[14] == action);
        },
        KeybindAction::MoveTabPrevious => {
            assert(all[15] == action);
        },
        KeybindAction::MoveTabNext => {
            assert(all[16] == action);
        },
        KeybindAction::CloseTab => {
            assert(all[17] == action);
        },
        KeybindAction::RenamePane => {
            assert(all[18] == action);
        },
        KeybindAction::FocusPaneLeft => {
            assert(all[19] == action);
        },
        KeybindAction::FocusPaneDown => {
            assert(all[20] == action);
        },
        KeybindAction::FocusPaneUp => {
            assert(all[21] == action);
        },
        KeybindAction::FocusPaneRight => {
            assert(all[22] == action);
        },
        KeybindAction::SwapPaneLeft => {
            assert(all[23] == action);
        },
        KeybindAction::SwapPaneDown => {
            assert(all[24] == action);
        },
        KeybindAction::SwapPaneUp => {
            assert(all[25] == action);
        },
        KeybindAction::SwapPaneRight => {
            assert(all[26] == action);
        },
        KeybindAction::SplitVertical => {
            assert(all[27] == action);
        },
        KeybindAction::SplitHorizontal => {
            assert(all[28] == action);
        },
        KeybindAction::ClosePane => {
            assert(all[29] == action);
        },
        KeybindAction::EditScrollback => {
            assert(all[30] == action);
        },
        KeybindAction::CopyMode => {
            assert(all[31] == action);
        },
        KeybindAction::Zoom => {
            assert(all[32] == action);
        },
        KeybindAction::EnterResizeMode => {
            assert(all[33] == action);
        },
        KeybindAction::ResizePaneLeft => {
            assert(all[34] == action);
        },
        KeybindAction::ResizePaneDown => {
            assert(all[35] == action);
        },
        KeybindAction::ResizePaneUp => {
            assert(all[36] == action);
        },
        KeybindAction::ResizePaneRight => {
            assert(all[37] == action);
        },
        KeybindAction::ToggleSidebar => {
            assert(all[38] == action);
        },
        KeybindAction::CyclePaneNext => {
            assert(all[39] == action);
        },
        KeybindAction::CyclePanePrevious => {
            assert(all[40] == action);
        },
        KeybindAction::LastPane => {
            assert(all[41] == action);
        },
        KeybindAction::Help => {
            assert(all[42] == action);
        },
        KeybindAction::Settings => {
            assert(all[43] == action);
        },
        KeybindAction::ReloadConfig => {
            assert(all[44] == action);
        },
        KeybindAction::OpenNotificationTarget => {
            assert(all[45] == action);
        },
        KeybindAction::Detach => {
            assert(all[46] == action);
        },
        KeybindAction::OpenNavigator => {
            assert(all[47] == action);
        },
        _ => {},
    }
}

/// A name stands for one action: no two actions are listed under the same one.
pub proof fn law_names_tell_actions_apart(a: KeybindAction, b: KeybindAction)
    requires
        entry_text(a) is Some,
        entry_text(b) is Some,
        (entry_text(a)->0).0 == (entry_text(b)->0).0,
    ensures
        a == b,
{
    reveal_strlit("new-workspace");
    reveal_strlit("new-worktree");
    reveal_strlit("open-worktree");
    reveal_strlit("remove-worktree");
    reveal_strlit("rename-workspace");
    reveal_strlit("close-workspace");
    reveal_strlit("workspace-picker");
    reveal_strlit("previous-workspace");
    reveal_strlit("next-workspace");
    reveal_strlit("previous-agent");
    reveal_strlit("next-agent");
    reveal_strlit("new-tab");
    reveal_strlit("rename-tab");
    reveal_strlit("previous-tab");
    reveal_strlit("next-tab");
    reveal_strlit("move-tab-previous");
    reveal_strlit("move-tab-next");
    reveal_strlit("close-tab");
    reveal_strlit("rename-pane");
    reveal_strlit("focus-pane-left");
    reveal_strlit("focus-pane-down");
    reveal_strlit("focus-pane-up");
    reveal_strlit("focus-pane-right");
    reveal_strlit("swap-pane-left");
    reveal_strlit("swap-pane-down");
    reveal_strlit("swap-pane-up");
    reveal_strlit("swap-pane-right");
    reveal_strlit("split-vertical");
    reveal_strlit("split-horizontal");
    reveal_strlit("close-pane");
    reveal_strlit("edit-scrollback");
    reveal_strlit("copy-mode");
    reveal_strlit("zoom");
    reveal_strlit("resize-mode");
    reveal_strlit("resize-pane-left");
    reveal_strlit("resize-pane-down");
    reveal_strlit("resize-pane-up");
    reveal_strlit("resize-pane-right");
    reveal_strlit("toggle-sidebar");
    reveal_strlit("cycle-pane-next");
    reveal_strlit("cycle-pane-previous");
    reveal_strlit("last-pane");
    reveal_strlit("help");
    reveal_strlit("settings");
    reveal_strlit("reload-config");
    reveal_strlit("open-notification-target");
    reveal_strlit("detach");
    reveal_strlit("navigator");
    let x = (entry_text(a)->0).0;
    let y = (entry_text(b)->0).0;
    assert(x.len() == y.len());
    assert(x[2] == y[2]);
    assert(x[13] == y[13]);
}

/// An action with an index is offered as the picker for its kind: a workspace in
/// the picker of workspaces, a tab or an agent in the navigator. No other action
/// is.
pub proof fn law_indexes_lead_to_pickers(action: KeybindAction, i: usize)
    ensures
        picker_of(KeybindAction::SwitchWorkspace(i)) == Some(KeybindAction::WorkspacePicker),
        picker_of(KeybindAction::SwitchTab(i)) == Some(KeybindAction::OpenNavigator),
        picker_of(KeybindAction::FocusAgent(i)) == Some(KeybindAction::OpenNavigator),
        picker_of(action) is Some ==> action is SwitchWorkspace || action is SwitchTab
            || action is FocusAgent,
{
}

/// The chords of an action are shown as they are, with a slash between one and
/// the next; an action without chords shows none.
pub proof fn law_chords_are_shown(none: ActionKeybinds, one: ActionKeybinds, more: ActionKeybinds)
    requires
        none.labels@.len() == 0,
        one.labels@.len() == 1,
        more.labels@.len() > 1,
    ensures
        none.text() is None,
        one.text() == Some(one.labels@[0]@),
        forall|before: ActionKeybinds|
            #![trigger before.text()]
            before.labels@ == more.labels@.drop_last() ==> more.text() == Some(
                before.text()->0 + seq![' ', '/', ' '] + more.labels@.last()@,
            ),
{
    reveal_strlit(" / ");
    assert(" / "@ =~= seq![' ', '/', ' ']);
    assert forall|before: ActionKeybinds|
        #![trigger before.text()]
        before.labels@ == more.labels@.drop_last() implies more.text() == Some(
        before.text()->0 + seq![' ', '/', ' '] + more.labels@.last()@,
    ) by {
        assert(views(more.labels@).drop_last() =~= views(before.labels@));
    }
}

} // verus!
