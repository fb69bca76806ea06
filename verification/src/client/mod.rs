//! The client shell: how one attached client presents what the endpoint says.

use vstd::prelude::*;

use crate::app::command_palette::SourceToggles;
use crate::canvas::{Palette, Rect};
use crate::client::command_palette::{ClientCommandPaletteOverlay, ClientPaletteView};
use crate::palette::actions::{CustomCommandKeybind, CustomCommandView, KeybindAction, Keybinds};
use crate::text::{opt_text, views};

pub mod colors;
pub mod command_palette;
pub mod command_palette_overlay;
pub mod status_strip;
pub mod tabs;

verus! {

/// One segment of the status strip as the endpoint pushes it: its text, and the
/// directive values in force for it, still unresolved.
#[derive(Debug, Clone, PartialEq, Eq)]
pub struct ClientShellStatusSegment {
    pub text: String,
    pub separator: bool,
    pub fg: Option<String>,
    pub bg: Option<String>,
    pub modifiers: u16,
}

/// A pushed segment, with its texts as characters.
pub struct StatusSegmentView {
    pub text: Seq<char>,
    pub separator: bool,
    pub fg: Option<Seq<char>>,
    pub bg: Option<Seq<char>>,
    pub modifiers: u16,
}

impl View for ClientShellStatusSegment {
    type V = StatusSegmentView;

    open spec fn view(&self) -> StatusSegmentView {
        StatusSegmentView {
            text: self.text@,
            separator: self.separator,
            fg: opt_text(self.fg),
            bg: opt_text(self.bg),
            modifiers: self.modifiers,
        }
    }
}

/// One entry of the endpoint's own tab bar decoration.
#[derive(Debug, Clone, PartialEq, Eq)]
pub struct ClientShellTabStatusSegment {
    pub text: String,
    pub accent: bool,
}

/// An entry of the tab bar decoration, with its text as characters.
pub struct TabStatusView {
    pub text: Seq<char>,
    pub accent: bool,
}

impl View for ClientShellTabStatusSegment {
    type V = TabStatusView;

    open spec fn view(&self) -> TabStatusView {
        TabStatusView { text: self.text@, accent: self.accent }
    }
}

/// One tab.
#[derive(Debug, Clone, PartialEq, Eq)]
pub struct ClientShellTab {
    pub tab_id: String,
    pub workspace_id: String,
    pub label: String,
    /// The label was given by the user.
    pub custom_label: bool,
    pub focused: bool,
    pub zoomed: bool,
}

/// One tab, with its texts as characters.
pub struct TabView {
    pub tab_id: Seq<char>,
    pub workspace_id: Seq<char>,
    pub label: Seq<char>,
    pub custom_label: bool,
    pub focused: bool,
    pub zoomed: bool,
}

impl View for ClientShellTab {
    type V = TabView;

    open spec fn view(&self) -> TabView {
        TabView {
            tab_id: self.tab_id@,
            workspace_id: self.workspace_id@,
            label: self.label@,
            custom_label: self.custom_label,
            focused: self.focused,
            zoomed: self.zoomed,
        }
    }
}

/// What the endpoint pushed for the tab bar.
#[derive(Debug, Clone, PartialEq, Eq)]
pub struct ClientShellSnapshot {
    pub tabs: Vec<ClientShellTab>,
    pub focused_workspace_id: Option<String>,
    pub tab_bar_right: Vec<ClientShellTabStatusSegment>,
    pub tab_bar_right_separator: String,
    pub status_strip: Vec<ClientShellStatusSegment>,
    pub status_strip_budget: u16,
}

/// What the endpoint pushed, with its texts as characters.
pub struct SnapshotView {
    pub tabs: Seq<TabView>,
    pub focused_workspace_id: Option<Seq<char>>,
    pub tab_bar_right: Seq<TabStatusView>,
    pub tab_bar_right_separator: Seq<char>,
    pub status_strip: Seq<StatusSegmentView>,
    pub status_strip_budget: u16,
}

impl View for ClientShellSnapshot {
    type V = SnapshotView;

    open spec fn view(&self) -> SnapshotView {
        SnapshotView {
            tabs: views(self.tabs@),
            focused_workspace_id: opt_text(self.focused_workspace_id),
            tab_bar_right: views(self.tab_bar_right@),
            tab_bar_right_separator: self.tab_bar_right_separator@,
            status_strip: views(self.status_strip@),
            status_strip_budget: self.status_strip_budget,
        }
    }
}

/// How the ends of a tab are drawn.
#[derive(Debug, Clone, Copy, PartialEq, Eq, Structural)]
pub enum TabCapStyleConfig {
    Block,
    Round,
    Slant,
    Powerline,
}

/// The client's own configuration.
#[derive(Debug)]
pub struct ClientShellConfig {
    pub palette: Palette,
    /// The mouse can use the bar, so its controls are drawn.
    pub mouse_capture: bool,
    pub tab_style: TabCapStyleConfig,
    pub rounded_borders: bool,
    pub keybinds: Keybinds,
    pub command_palette_sources: SourceToggles,
}

/// Where the last frame put what the mouse can hit.
#[derive(Debug)]
pub struct ShellHitMap {
    pub tabs: Vec<(Rect, String)>,
    pub tab_scroll_left: Rect,
    pub tab_scroll_right: Rect,
    pub new_tab: Rect,
    pub command_palette_popup: Rect,
    pub command_palette_rows: Vec<(Rect, usize)>,
    pub command_palette_list_height: usize,
}

/// What the mouse can hit, with its texts as characters.
pub struct HitsView {
    pub tabs: Seq<(Rect, Seq<char>)>,
    pub tab_scroll_left: Rect,
    pub tab_scroll_right: Rect,
    pub new_tab: Rect,
    pub command_palette_popup: Rect,
    pub command_palette_rows: Seq<(Rect, usize)>,
    pub command_palette_list_height: usize,
}

impl View for ShellHitMap {
    type V = HitsView;

    open spec fn view(&self) -> HitsView {
        HitsView {
            tabs: views(self.tabs@),
            tab_scroll_left: self.tab_scroll_left,
            tab_scroll_right: self.tab_scroll_right,
            new_tab: self.new_tab,
            command_palette_popup: self.command_palette_popup,
            command_palette_rows: self.command_palette_rows@,
            command_palette_list_height: self.command_palette_list_height,
        }
    }
}

impl HitsView {
    /// Nothing to hit.
    pub open spec fn nothing() -> HitsView {
        HitsView {
            tabs: Seq::empty(),
            tab_scroll_left: Rect::zero(),
            tab_scroll_right: Rect::zero(),
            new_tab: Rect::zero(),
            command_palette_popup: Rect::zero(),
            command_palette_rows: Seq::empty(),
            command_palette_list_height: 0,
        }
    }
}

impl Default for ShellHitMap {
    fn default() -> (r: ShellHitMap)
        ensures
            r@ == HitsView::nothing(),
    {
        let r = ShellHitMap {
            tabs: Vec::new(),
            tab_scroll_left: Rect::empty(),
            tab_scroll_right: Rect::empty(),
            new_tab: Rect::empty(),
            command_palette_popup: Rect::empty(),
            command_palette_rows: Vec::new(),
            command_palette_list_height: 0,
        };
        assert(r@.tabs =~= Seq::<(Rect, Seq<char>)>::empty());
        r
    }
}

/// What covers the panes.
#[derive(Debug)]
pub enum ClientShellOverlay {
    CommandPalette(ClientCommandPaletteOverlay),
    /// Any other overlay.
    Other,
}

/// What covers the panes, with its texts as characters.
pub enum OverlayView {
    CommandPalette(ClientPaletteView),
    Other,
}

impl View for ClientShellOverlay {
    type V = OverlayView;

    open spec fn view(&self) -> OverlayView {
        match *self {
            ClientShellOverlay::CommandPalette(palette) => OverlayView::CommandPalette(palette@),
            ClientShellOverlay::Other => OverlayView::Other,
        }
    }
}

/// What a chord stands for.
#[derive(Debug)]
pub enum KeybindMatch {
    Action(KeybindAction),
    Command(CustomCommandKeybind),
}

/// A method of the endpoint.
#[derive(Debug)]
pub enum EndpointMethod {
    PluginActionList,
    PluginActionInvoke { plugin_id: String, action_id: String },
}

/// What the shell asks to be done.
#[derive(Debug)]
pub enum ClientShellAction {
    /// Do what a chord does.
    Binding(KeybindMatch),
    /// Send a request to the endpoint.
    Endpoint { id: u64, method: EndpointMethod },
}

/// What the shell asks to be done, with its texts as characters.
pub enum ActionView {
    RunAction(KeybindAction),
    RunCommand(CustomCommandView),
    ListPluginActions { id: u64 },
    InvokePluginAction { id: u64, plugin_id: Seq<char>, action_id: Seq<char> },
}

impl View for ClientShellAction {
    type V = ActionView;

    open spec fn view(&self) -> ActionView {
        match *self {
            ClientShellAction::Binding(KeybindMatch::Action(action)) => ActionView::RunAction(
                action,
            ),
            ClientShellAction::Binding(KeybindMatch::Command(command)) => ActionView::RunCommand(
                command@,
            ),
            ClientShellAction::Endpoint { id, method: EndpointMethod::PluginActionList } => {
                ActionView::ListPluginActions { id }
            },
            ClientShellAction::Endpoint {
                id,
                method: EndpointMethod::PluginActionInvoke { plugin_id, action_id },
            } => ActionView::InvokePluginAction {
                id,
                plugin_id: plugin_id@,
                action_id: action_id@,
            },
        }
    }
}

/// What handling input led to.
#[derive(Debug)]
pub struct ClientShellInput {
    pub actions: Vec<ClientShellAction>,
    pub repaint: bool,
}

/// What handling input led to, with its texts as characters.
pub struct InputView {
    pub actions: Seq<ActionView>,
    pub repaint: bool,
}

impl View for ClientShellInput {
    type V = InputView;

    open spec fn view(&self) -> InputView {
        InputView { actions: views(self.actions@), repaint: self.repaint }
    }
}

impl Default for ClientShellInput {
    fn default() -> (r: ClientShellInput)
        ensures
            r@ == (InputView { actions: Seq::empty(), repaint: false }),
    {
        let r = ClientShellInput { actions: Vec::new(), repaint: false };
        assert(r@.actions =~= Seq::<ActionView>::empty());
        r
    }
}

/// The state of one client's shell.
#[derive(Debug)]
pub struct ClientShellState {
    pub config: ClientShellConfig,
    pub snapshot: Option<ClientShellSnapshot>,
    pub overlay: Option<ClientShellOverlay>,
    /// A part of the chrome is being dragged.
    pub chrome_drag: bool,
    pub hits: ShellHitMap,
    pub endpoint_error: Option<String>,
    /// The id of the next request.
    pub next_request: u64,
}

/// The part of the shell's state that the palette reads and changes.
pub struct ShellView {
    pub keybinds: Keybinds,
    pub sources: SourceToggles,
    pub has_snapshot: bool,
    pub overlay: Option<OverlayView>,
    pub chrome_drag: bool,
    pub list_height: usize,
    pub endpoint_error: Option<Seq<char>>,
    pub next_request: u64,
}

impl View for ClientShellState {
    type V = ShellView;

    open spec fn view(&self) -> ShellView {
        ShellView {
            keybinds: self.config.keybinds,
            sources: self.config.command_palette_sources,
            has_snapshot: self.snapshot is Some,
            overlay: match self.overlay {
                Some(overlay) => Some(overlay@),
                None => None,
            },
            chrome_drag: self.chrome_drag,
            list_height: self.hits.command_palette_list_height,
            endpoint_error: opt_text(self.endpoint_error),
            next_request: self.next_request,
        }
    }
}

impl ClientShellState {
    /// A shell before its first snapshot.
    pub fn new(config: ClientShellConfig) -> (r: ClientShellState)
        ensures
            r.config == config,
            r.snapshot is None,
            r.hits@ == HitsView::nothing(),
            r@ == (ShellView {
                keybinds: config.keybinds,
                sources: config.command_palette_sources,
                has_snapshot: false,
                overlay: None,
                chrome_drag: false,
                list_height: 0,
                endpoint_error: None,
                next_request: 0,
            }),
    {
        ClientShellState {
            config,
            snapshot: None,
            overlay: None,
            chrome_drag: false,
            hits: ShellHitMap::default(),
            endpoint_error: None,
            next_request: 0,
        }
    }
}

/// Before anything is drawn nothing can be hit.
pub proof fn law_nothing_drawn_nothing_hit()
    ensures
        HitsView::nothing().tabs.len() == 0,
        HitsView::nothing().command_palette_rows.len() == 0,
        HitsView::nothing().tab_scroll_left.width == 0,
        HitsView::nothing().tab_scroll_right.width == 0,
        HitsView::nothing().new_tab.width == 0,
        HitsView::nothing().command_palette_popup.width == 0,
        HitsView::nothing().command_palette_list_height == 0,
{
}

} // verus!
