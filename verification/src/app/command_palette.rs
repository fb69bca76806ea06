//! The endpoint's command palette: its catalog, its filter and its selection.

use vstd::prelude::*;

use crate::api::schema::{PluginActionInfo, PluginActionView};
use crate::app::navigate::{
    all_builtin_actions, all_navigate_actions, as_keybind, law_navigate_catalog_is_complete,
    law_actions_are_bound_apart, law_variants_tell_actions_apart, navigate_picker, variant_text,
    NavigateAction,
};
use crate::lists::lemma_contains_push;
use crate::palette::actions::{
    chord_label, chord_of, entry_of, entry_text, law_catalog_covers_every_action,
    law_names_tell_actions_apart, ActionKeybinds, CustomCommandKeybind, CustomCommandView, Keybinds,
};
use crate::palette::fuzzy::{law_empty_query_matches_all, scorable};
use crate::palette::rows::{
    all_scorable, by_name, clamp_selection, clamped, distinct_commands, drop_repeats,
    first_of_each, holds_command, in_name_order, in_strict_name_order, is_ranking, keep_first_of_each,
    law_each_command_is_listed_once, law_first_of_a_command_is_kept,
    law_moves_go_as_far_as_they_say, law_one_row_for_each_name,
    law_sorting_keeps_commands_distinct, law_sorting_orders_the_rows, law_steps_wrap_around,
    names_of, rank_rows, sort_by_name, without_repeats, wrap_selection, wrapped, PaletteRow,
};
use crate::text::{
    copy_opt, decimal, lemma_text_less_irreflexive, lemma_views_add, lemma_views_empty,
    lemma_views_push, opt_text, owned, push_text, same_text, text_less, views,
};

pub use crate::palette::fuzzy::fuzzy_score;

verus! {

/// Where a command comes from.
#[derive(Debug, Clone, Copy, PartialEq, Eq, Structural)]
pub enum CommandSource {
    BuiltIn,
    Plugin,
    Custom,
}

/// The tag of a source.
pub open spec fn source_tag(source: CommandSource) -> Seq<char> {
    match source {
        CommandSource::BuiltIn => "built-in"@,
        CommandSource::Plugin => "plugin"@,
        CommandSource::Custom => "custom"@,
    }
}

impl CommandSource {
    /// The tag shown at the right of every row.
    pub fn tag(self) -> (r: &'static str)
        ensures
            r@ == source_tag(self),
    {
        match self {
            CommandSource::BuiltIn => "built-in",
            CommandSource::Plugin => "plugin",
            CommandSource::Custom => "custom",
        }
    }
}

/// What running a row does.
#[derive(Debug)]
pub enum CommandHandle {
    Navigate(NavigateAction),
    /// The action's full id, such as `myplugin.dosomething`.
    Plugin(String),
    Custom(CustomCommandKeybind),
}

/// What running a row does, with its texts as characters.
pub enum CommandHandleView {
    Navigate(NavigateAction),
    Plugin(Seq<char>),
    Custom(CustomCommandView),
}

impl View for CommandHandle {
    type V = CommandHandleView;

    open spec fn view(&self) -> CommandHandleView {
        match *self {
            CommandHandle::Navigate(action) => CommandHandleView::Navigate(action),
            CommandHandle::Plugin(id) => CommandHandleView::Plugin(id@),
            CommandHandle::Custom(command) => CommandHandleView::Custom(command@),
        }
    }
}

impl Clone for CommandHandle {
    fn clone(&self) -> (r: CommandHandle)
        ensures
            r@ == self@,
    {
        match self {
            CommandHandle::Navigate(action) => CommandHandle::Navigate(*action),
            CommandHandle::Plugin(id) => CommandHandle::Plugin(id.clone()),
            CommandHandle::Custom(command) => CommandHandle::Custom(command.clone()),
        }
    }
}

/// One row of the palette.
#[derive(Debug)]
pub struct CommandEntry {
    pub name: String,
    pub description: Option<String>,
    /// The chord at the right of the row.
    pub keybinding: Option<String>,
    pub source: CommandSource,
    pub handle: CommandHandle,
}

/// One row of the palette, with its texts as characters.
pub struct CommandEntryView {
    pub name: Seq<char>,
    pub description: Option<Seq<char>>,
    pub keybinding: Option<Seq<char>>,
    pub source: CommandSource,
    pub handle: CommandHandleView,
}

impl View for CommandEntry {
    type V = CommandEntryView;

    open spec fn view(&self) -> CommandEntryView {
        CommandEntryView {
            name: self.name@,
            description: opt_text(self.description),
            keybinding: opt_text(self.keybinding),
            source: self.source,
            handle: self.handle@,
        }
    }
}

impl Clone for CommandEntry {
    fn clone(&self) -> (r: CommandEntry)
        ensures
            r@ == self@,
    {
        CommandEntry {
            name: self.name.clone(),
            description: copy_opt(&self.description),
            keybinding: copy_opt(&self.keybinding),
            source: self.source,
            handle: self.handle.clone(),
        }
    }
}

impl CommandEntryView {
    /// What tells the commands of two rows apart: the handle, not the name.
    pub open spec fn identity(self) -> Seq<char> {
        match self.handle {
            CommandHandleView::Navigate(action) => "nav:"@ + variant_text(action),
            CommandHandleView::Plugin(id) => "plugin:"@ + id,
            CommandHandleView::Custom(command) => "custom:"@ + command.command,
        }
    }
}

impl CommandEntry {
    /// A key for the row's command. Plugin actions that share a title have
    /// different keys.
    pub fn identity_key(&self) -> (r: String)
        ensures
            r@ == self@.identity(),
    {
        match &self.handle {
            CommandHandle::Navigate(action) => {
                let mut key = owned("nav:");
                push_text(&mut key, action.variant_name().as_str());
                key
            },
            CommandHandle::Plugin(id) => {
                let mut key = owned("plugin:");
                push_text(&mut key, id.as_str());
                key
            },
            CommandHandle::Custom(command) => {
                let mut key = owned("custom:");
                push_text(&mut key, command.command.as_str());
                key
            },
        }
    }
}

impl PaletteRow for CommandEntry {
    open spec fn row_name(row: CommandEntryView) -> Seq<char> {
        row.name
    }

    open spec fn same_command(a: CommandEntryView, b: CommandEntryView) -> bool {
        a.identity() == b.identity()
    }

    fn name_text(&self) -> &str {
        self.name.as_str()
    }

    fn runs_same_command(&self, other: &CommandEntry) -> bool {
        same_text(self.identity_key().as_str(), other.identity_key().as_str())
    }
}

// --- the catalog of built-ins -----------------------------------------------------

/// How an action appears in the palette.
#[derive(Debug)]
pub enum BuiltinDisposition {
    /// A command with a name and a description.
    Entry { name: &'static str, description: &'static str },
    /// An action with an index: one row opens the picker instead.
    RouteToPicker(NavigateAction),
    /// Not listed.
    Exclude,
}

/// How an action appears in the palette.
pub fn builtin_disposition(action: &NavigateAction) -> (r: BuiltinDisposition)
    ensures
        match r {
            BuiltinDisposition::Entry { name, description } => entry_text(as_keybind(*action))
                == Some((name@, description@)),
            BuiltinDisposition::RouteToPicker(target) => entry_text(as_keybind(*action)) is None
                && navigate_picker(*action) == Some(target),
            BuiltinDisposition::Exclude => entry_text(as_keybind(*action)) is None
                && navigate_picker(*action) is None,
        },
{
    match entry_of(action.keybind_action()) {
        Some((name, description)) => BuiltinDisposition::Entry { name, description },
        None => match action.picker() {
            Some(target) => BuiltinDisposition::RouteToPicker(target),
            None => BuiltinDisposition::Exclude,
        },
    }
}

/// The chord bound to an action, such as `prefix+z`; `None` when it is unbound.
pub fn builtin_keybind_label(keybinds: &Keybinds, action: &NavigateAction) -> (r: Option<String>)
    ensures
        opt_text(r) == chord_of(*keybinds, as_keybind(*action)),
{
    chord_label(keybinds, action.keybind_action())
}

/// The name and description of a picker's row.
pub open spec fn picker_text(action: NavigateAction) -> (Seq<char>, Seq<char>) {
    match entry_text(as_keybind(action)) {
        Some(text) => text,
        None => ("picker"@, Seq::empty()),
    }
}

pub fn picker_entry_name(action: &NavigateAction) -> (r: String)
    ensures
        r@ == picker_text(*action).0,
{
    match builtin_disposition(action) {
        BuiltinDisposition::Entry { name, .. } => owned(name),
        _ => owned("picker"),
    }
}

pub fn picker_entry_desc(action: &NavigateAction) -> (r: String)
    ensures
        r@ == picker_text(*action).1,
{
    match builtin_disposition(action) {
        BuiltinDisposition::Entry { description, .. } => owned(description),
        _ => String::new(),
    }
}

/// The row that runs an action under a name and a description.
pub open spec fn builtin_row(
    keybinds: Keybinds,
    action: NavigateAction,
    text: (Seq<char>, Seq<char>),
) -> CommandEntryView {
    CommandEntryView {
        name: text.0,
        description: Some(text.1),
        keybinding: chord_of(keybinds, as_keybind(action)),
        source: CommandSource::BuiltIn,
        handle: CommandHandleView::Navigate(action),
    }
}

/// The row that an action gets, if any.
pub open spec fn row_of(keybinds: Keybinds, action: NavigateAction) -> Option<CommandEntryView> {
    match entry_text(as_keybind(action)) {
        Some(text) => Some(builtin_row(keybinds, action, text)),
        None => match navigate_picker(action) {
            Some(target) => Some(builtin_row(keybinds, target, picker_text(target))),
            None => None,
        },
    }
}

/// The rows of a list of actions.
pub open spec fn rows_of(keybinds: Keybinds, actions: Seq<NavigateAction>) -> Seq<CommandEntryView>
    decreases actions.len(),
{
    if actions.len() == 0 {
        Seq::empty()
    } else {
        let before = rows_of(keybinds, actions.drop_last());
        match row_of(keybinds, actions.last()) {
            Some(row) => before.push(row),
            None => before,
        }
    }
}

/// The catalog of built-ins: the rows of all actions in name order, one for
/// each name.
pub open spec fn builtin_catalog(keybinds: Keybinds) -> Seq<CommandEntryView> {
    without_repeats::<CommandEntry>(
        by_name::<CommandEntry>(rows_of(keybinds, all_navigate_actions())),
    )
}

pub fn builtin_entries(keybinds: &Keybinds) -> (r: Vec<CommandEntry>)
    ensures
        views(r@) == builtin_catalog(*keybinds),
{
    let actions = all_builtin_actions();
    let mut entries: Vec<CommandEntry> = Vec::new();
    proof {
        lemma_views_empty::<CommandEntry>();
        assert(actions@.take(0) =~= Seq::<NavigateAction>::empty());
    }
    let mut i: usize = 0;
    while i < actions.len()
        invariant
            i <= actions@.len(),
            views(entries@) == rows_of(*keybinds, actions@.take(i as int)),
        decreases actions@.len() - i,
    {
        let action = actions[i];
        let made = match builtin_disposition(&action) {
            BuiltinDisposition::Entry { name, description } => Some(
                CommandEntry {
                    name: owned(name),
                    description: Some(owned(description)),
                    keybinding: builtin_keybind_label(keybinds, &action),
                    source: CommandSource::BuiltIn,
                    handle: CommandHandle::Navigate(action),
                },
            ),
            BuiltinDisposition::RouteToPicker(target) => Some(
                CommandEntry {
                    name: picker_entry_name(&target),
                    description: Some(picker_entry_desc(&target)),
                    keybinding: builtin_keybind_label(keybinds, &target),
                    source: CommandSource::BuiltIn,
                    handle: CommandHandle::Navigate(target),
                },
            ),
            BuiltinDisposition::Exclude => None,
        };
        proof {
            assert(actions@.take(i as int + 1).drop_last() =~= actions@.take(i as int));
            assert(actions@.take(i as int + 1).last() == action);
        }
        if let Some(entry) = made {
            proof {
                lemma_views_push(entries@, entry);
            }
            entries.push(entry);
        }
        i = i + 1;
    }
    assert(actions@.take(i as int) =~= actions@);
    drop_repeats(sort_by_name(entries))
}

// --- the palette ----------------------------------------------------------------------

/// Which sources the palette lists.
#[derive(Debug, Clone, Copy, PartialEq, Eq, Structural)]
pub struct SourceToggles {
    pub built_in: bool,
    pub plugin: bool,
    pub custom: bool,
}

impl SourceToggles {
    pub fn all() -> (r: SourceToggles)
        ensures
            r == (SourceToggles { built_in: true, plugin: true, custom: true }),
    {
        SourceToggles { built_in: true, plugin: true, custom: true }
    }
}

/// An open palette.
#[derive(Debug)]
pub struct CommandPaletteState {
    pub query: String,
    pub replace_on_type: bool,
    pub entries: Vec<CommandEntry>,
    /// Places in `entries`, best match first.
    pub filtered: Vec<usize>,
    pub selected: usize,
}

/// An open palette, with its texts as characters.
pub struct CommandPaletteView {
    pub query: Seq<char>,
    pub replace_on_type: bool,
    pub entries: Seq<CommandEntryView>,
    pub filtered: Seq<usize>,
    pub selected: usize,
}

impl View for CommandPaletteState {
    type V = CommandPaletteView;

    open spec fn view(&self) -> CommandPaletteView {
        CommandPaletteView {
            query: self.query@,
            replace_on_type: self.replace_on_type,
            entries: views(self.entries@),
            filtered: self.filtered@,
            selected: self.selected,
        }
    }
}

impl Default for CommandPaletteState {
    fn default() -> (r: CommandPaletteState)
        ensures
            r@ == (CommandPaletteView {
                query: Seq::empty(),
                replace_on_type: false,
                entries: Seq::empty(),
                filtered: Seq::empty(),
                selected: 0,
            }),
    {
        let r = CommandPaletteState {
            query: String::new(),
            replace_on_type: false,
            entries: Vec::new(),
            filtered: Vec::new(),
            selected: 0,
        };
        proof {
            lemma_views_empty::<CommandEntry>();
            assert(r.query@ =~= Seq::<char>::empty());
        }
        r
    }
}

impl CommandPaletteView {
    /// The list shows what matches the query, best first.
    pub open spec fn is_filtered(self) -> bool {
        is_ranking(names_of::<CommandEntry>(self.entries), self.query, self.filtered)
    }

    /// The row that is selected.
    pub open spec fn highlighted(self) -> Option<CommandEntryView> {
        if self.selected < self.filtered.len() && self.filtered[self.selected as int]
            < self.entries.len() {
            Some(self.entries[self.filtered[self.selected as int] as int])
        } else {
            None
        }
    }

    /// The palette with the row `delta` steps on selected, around the ends.
    pub open spec fn stepped(self, delta: int) -> CommandPaletteView {
        CommandPaletteView {
            selected: wrapped(self.selected as int, self.filtered.len() as int, delta) as usize,
            ..self
        }
    }

    /// The palette with the row `delta` steps on selected, up to the ends.
    pub open spec fn jumped(self, delta: int) -> CommandPaletteView {
        CommandPaletteView {
            selected: clamped(self.selected as int, self.filtered.len() as int, delta) as usize,
            ..self
        }
    }

    /// The palette with the first or the last row selected.
    pub open spec fn at_edge(self, last: bool) -> CommandPaletteView {
        CommandPaletteView {
            selected: if last && self.filtered.len() > 0 {
                (self.filtered.len() - 1) as usize
            } else {
                0
            },
            ..self
        }
    }
}

/// The rows of the sources that are on, one after the other.
pub open spec fn merged(
    toggles: SourceToggles,
    keybinds: Keybinds,
    plugin: Seq<CommandEntryView>,
    custom: Seq<CommandEntryView>,
) -> Seq<CommandEntryView> {
    let none = Seq::<CommandEntryView>::empty();
    (if toggles.built_in {
        builtin_catalog(keybinds)
    } else {
        none
    }) + (if toggles.plugin {
        plugin
    } else {
        none
    }) + (if toggles.custom {
        custom
    } else {
        none
    })
}

/// The catalog: the rows of the sources that are on, each command once, in name
/// order.
pub open spec fn catalog(
    toggles: SourceToggles,
    keybinds: Keybinds,
    plugin: Seq<CommandEntryView>,
    custom: Seq<CommandEntryView>,
) -> Seq<CommandEntryView> {
    by_name::<CommandEntry>(
        first_of_each::<CommandEntry>(merged(toggles, keybinds, plugin, custom)),
    )
}

impl CommandPaletteState {
    /// Rebuild the catalog from the sources that are on, with an empty query and
    /// the first row selected. Rows are told apart by what they run, not by
    /// their names.
    pub fn assemble(
        &mut self,
        toggles: SourceToggles,
        keybinds: &Keybinds,
        plugin_entries: Vec<CommandEntry>,
        custom_entries: Vec<CommandEntry>,
    )
        ensures
            final(self)@.entries == catalog(
                toggles,
                *keybinds,
                views(plugin_entries@),
                views(custom_entries@),
            ),
            final(self)@.query == Seq::<char>::empty(),
            !final(self)@.replace_on_type,
            final(self)@.selected == 0,
            final(self)@.is_filtered(),
    {
        let ghost plugin_rows = views(plugin_entries@);
        let ghost custom_rows = views(custom_entries@);
        let mut entries: Vec<CommandEntry> = Vec::new();
        proof {
            lemma_views_empty::<CommandEntry>();
        }
        if toggles.built_in {
            entries = builtin_entries(keybinds);
        }
        let ghost first = views(entries@);
        if toggles.plugin {
            let mut more = plugin_entries;
            proof {
                lemma_views_add(entries@, more@);
            }
            entries.append(&mut more);
        }
        let ghost second = views(entries@);
        assert(second =~= first + (if toggles.plugin {
            plugin_rows
        } else {
            Seq::empty()
        }));
        if toggles.custom {
            let mut more = custom_entries;
            proof {
                lemma_views_add(entries@, more@);
            }
            entries.append(&mut more);
        }
        assert(views(entries@) =~= merged(toggles, *keybinds, plugin_rows, custom_rows));
        self.entries = sort_by_name(keep_first_of_each(entries));
        self.query = String::new();
        self.replace_on_type = false;
        proof {
            assert(self.query@ =~= Seq::<char>::empty());
            assert forall|i: int| 0 <= i < names_of::<CommandEntry>(self@.entries).len() implies
                scorable(
                self.query@,
                #[trigger] names_of::<CommandEntry>(self@.entries)[i],
            ) by {
                law_empty_query_matches_all(names_of::<CommandEntry>(self@.entries)[i]);
            }
        }
        self.refilter();
    }

    /// Filter the rows by the query and select the best match.
    pub fn refilter(&mut self)
        requires
            all_scorable(names_of::<CommandEntry>(old(self)@.entries), old(self)@.query),
        ensures
            final(self)@.is_filtered(),
            final(self)@ == (CommandPaletteView {
                filtered: final(self)@.filtered,
                selected: 0,
                ..old(self)@
            }),
    {
        self.filtered = rank_rows(self.entries.as_slice(), self.query.as_str());
        self.selected = 0;
    }

    /// The places of the listed rows, best match first.
    pub fn visible(&self) -> (r: &[usize])
        ensures
            r@ == self@.filtered,
    {
        self.filtered.as_slice()
    }

    /// The selected row.
    pub fn selected_entry(&self) -> (r: Option<&CommandEntry>)
        ensures
            match r {
                Some(entry) => self@.selected < self@.filtered.len()
                    && self@.filtered[self@.selected as int] < self@.entries.len() && entry@
                    == self@.entries[self@.filtered[self@.selected as int] as int],
                None => self@.selected >= self@.filtered.len()
                    || self@.filtered[self@.selected as int] >= self@.entries.len(),
            },
            match r {
                Some(entry) => self@.highlighted() == Some(entry@),
                None => self@.highlighted() is None,
            },
    {
        if self.selected >= self.filtered.len() {
            return None;
        }
        let i: usize = self.filtered[self.selected];
        if i >= self.entries.len() {
            return None;
        }
        Some(&self.entries[i])
    }

    /// Step through the list; it wraps around.
    pub fn move_selection(&mut self, delta: i32)
        ensures
            final(self)@ == old(self)@.stepped(delta as int),
            final(self)@ == (CommandPaletteView {
                selected: wrapped(
                    old(self)@.selected as int,
                    old(self)@.filtered.len() as int,
                    delta as int,
                ) as usize,
                ..old(self)@
            }),
    {
        self.selected = wrap_selection(self.selected, self.filtered.len(), delta as i64);
    }

    /// Jump through the list; it stops at the ends.
    pub fn jump_clamped(&mut self, delta: i32)
        ensures
            final(self)@ == old(self)@.jumped(delta as int),
            final(self)@ == (CommandPaletteView {
                selected: clamped(
                    old(self)@.selected as int,
                    old(self)@.filtered.len() as int,
                    delta as int,
                ) as usize,
                ..old(self)@
            }),
    {
        self.selected = clamp_selection(self.selected, self.filtered.len(), delta as i64);
    }

    /// Jump to the first row.
    pub fn select_first(&mut self)
        ensures
            final(self)@ == old(self)@.at_edge(false),
            final(self)@ == (CommandPaletteView { selected: 0, ..old(self)@ }),
    {
        self.selected = 0;
    }

    /// Jump to the last row; an empty list stays at the start.
    pub fn select_last(&mut self)
        ensures
            final(self)@ == old(self)@.at_edge(true),
            final(self)@ == (CommandPaletteView {
                selected: if old(self)@.filtered.len() == 0 {
                    0
                } else {
                    (old(self)@.filtered.len() - 1) as usize
                },
                ..old(self)@
            }),
    {
        let total: usize = self.filtered.len();
        self.selected = if total == 0 {
            0
        } else {
            total - 1
        };
    }
}

/// The row of a plugin action.
pub open spec fn plugin_row(action: PluginActionView) -> CommandEntryView {
    CommandEntryView {
        name: action.title,
        description: action.description,
        keybinding: None,
        source: CommandSource::Plugin,
        handle: CommandHandleView::Plugin(action.full_id()),
    }
}

/// The available plugin actions as rows.
pub fn plugin_entries_from_registry(actions: &[PluginActionInfo]) -> (r: Vec<CommandEntry>)
    ensures
        views(r@) == views(actions@).map_values(|action: PluginActionView| plugin_row(action)),
{
    let mut r: Vec<CommandEntry> = Vec::new();
    let mut i: usize = 0;
    while i < actions.len()
        invariant
            i <= actions@.len(),
            r@.len() == i,
            forall|k: int| 0 <= k < i ==> (#[trigger] r@[k])@ == plugin_row(actions@[k]@),
        decreases actions@.len() - i,
    {
        r.push(
            CommandEntry {
                name: actions[i].title.clone(),
                description: copy_opt(&actions[i].description),
                keybinding: None,
                source: CommandSource::Plugin,
                handle: CommandHandle::Plugin(actions[i].qualified_id()),
            },
        );
        i = i + 1;
    }
    assert(views(r@) =~= views(actions@).map_values(|action: PluginActionView| plugin_row(action)));
    r
}

/// The row of a custom command. One without a label has its chord for a name,
/// and no chord beside it.
pub open spec fn custom_row(command: CustomCommandView) -> CommandEntryView {
    CommandEntryView {
        name: command.label,
        description: command.description,
        keybinding: command.keybind_display,
        source: CommandSource::Custom,
        handle: CommandHandleView::Custom(command),
    }
}

/// The user's own commands as rows.
pub fn custom_entries_from_config(customs: &[CustomCommandKeybind]) -> (r: Vec<CommandEntry>)
    ensures
        views(r@) == views(customs@).map_values(|command: CustomCommandView| custom_row(command)),
{
    let mut r: Vec<CommandEntry> = Vec::new();
    let mut i: usize = 0;
    while i < customs.len()
        invariant
            i <= customs@.len(),
            r@.len() == i,
            forall|k: int| 0 <= k < i ==> (#[trigger] r@[k])@ == custom_row(customs@[k]@),
        decreases customs@.len() - i,
    {
        r.push(
            CommandEntry {
                name: customs[i].label.clone(),
                description: copy_opt(&customs[i].description),
                keybinding: copy_opt(&customs[i].keybind_display),
                source: CommandSource::Custom,
                handle: CommandHandle::Custom(customs[i].clone()),
            },
        );
        i = i + 1;
    }
    assert(views(r@) =~= views(customs@).map_values(
        |command: CustomCommandView| custom_row(command),
    ));
    r
}

// --- laws ---------------------------------------------------------------------------

/// A row of the catalog of built-ins: it has a name, it runs an action that the
/// palette lists under that name, and its chord is that action's.
pub open spec fn is_builtin_row(keybinds: Keybinds, row: CommandEntryView) -> bool {
    &&& row.source == CommandSource::BuiltIn
    &&& row.handle matches CommandHandleView::Navigate(action) && entry_text(as_keybind(action))
        is Some && row == builtin_row(keybinds, action, entry_text(as_keybind(action))->0)
}

proof fn lemma_rows_are_builtin(keybinds: Keybinds, actions: Seq<NavigateAction>)
    ensures
        forall|x: CommandEntryView| #[trigger]
            rows_of(keybinds, actions).contains(x) ==> is_builtin_row(keybinds, x),
        forall|a: NavigateAction|
            #![trigger actions.contains(a)]
            actions.contains(a) && row_of(keybinds, a) is Some ==> rows_of(
                keybinds,
                actions,
            ).contains(row_of(keybinds, a)->0),
    decreases actions.len(),
{
    if actions.len() > 0 {
        let front = actions.drop_last();
        let last = actions.last();
        lemma_rows_are_builtin(keybinds, front);
        assert(front.push(last) =~= actions);
        let before = rows_of(keybinds, front);
        let rows = rows_of(keybinds, actions);
        match row_of(keybinds, last) {
            Some(row) => {
                assert(is_builtin_row(keybinds, row)) by {
                    match navigate_picker(last) {
                        Some(target) => {
                            law_catalog_covers_every_action(as_keybind(last));
                        },
                        None => {},
                    }
                }
                assert forall|x: CommandEntryView| #[trigger] rows.contains(x) implies
                    is_builtin_row(keybinds, x) by {
                    lemma_contains_push(before, row, x);
                }
                assert forall|a: NavigateAction|
                    #![trigger actions.contains(a)]
                    actions.contains(a) && row_of(keybinds, a) is Some implies rows.contains(
                    row_of(keybinds, a)->0,
                ) by {
                    lemma_contains_push(front, last, a);
                    lemma_contains_push(before, row, row_of(keybinds, a)->0);
                }
            },
            None => {
                assert forall|a: NavigateAction|
                    #![trigger actions.contains(a)]
                    actions.contains(a) && row_of(keybinds, a) is Some implies rows.contains(
                    row_of(keybinds, a)->0,
                ) by {
                    lemma_contains_push(front, last, a);
                }
            },
        }
    }
}

/// The catalog lists built-ins in strict name order, and every row runs an
/// action without an index; so neither the palette itself nor a fixed index is
/// ever offered.
pub proof fn law_catalog_is_sound(keybinds: Keybinds)
    ensures
        in_strict_name_order::<CommandEntry>(builtin_catalog(keybinds)),
        forall|x: CommandEntryView| #[trigger]
            builtin_catalog(keybinds).contains(x) ==> is_builtin_row(keybinds, x),
{
    let rows = rows_of(keybinds, all_navigate_actions());
    lemma_rows_are_builtin(keybinds, all_navigate_actions());
    law_sorting_orders_the_rows::<CommandEntry>(rows);
    law_one_row_for_each_name::<CommandEntry>(by_name::<CommandEntry>(rows));
}

/// Every action that the palette lists has a row under its name.
pub proof fn law_catalog_is_complete(keybinds: Keybinds, action: NavigateAction)
    requires
        entry_text(as_keybind(action)) is Some,
    ensures
        names_of::<CommandEntry>(builtin_catalog(keybinds)).contains(
            (entry_text(as_keybind(action))->0).0,
        ),
{
    let rows = rows_of(keybinds, all_navigate_actions());
    lemma_rows_are_builtin(keybinds, all_navigate_actions());
    law_navigate_catalog_is_complete(action);
    law_sorting_orders_the_rows::<CommandEntry>(rows);
    law_one_row_for_each_name::<CommandEntry>(by_name::<CommandEntry>(rows));
    assert(all_navigate_actions().contains(action));
    let row = row_of(keybinds, action)->0;
    assert(rows.contains(row));
    assert(by_name::<CommandEntry>(rows).contains(row));
}

/// The palette lists its rows in name order, no command twice, and every
/// command of a source that is on.
pub proof fn law_palette_lists_each_command_once(
    toggles: SourceToggles,
    keybinds: Keybinds,
    plugin: Seq<CommandEntryView>,
    custom: Seq<CommandEntryView>,
)
    ensures
        in_name_order::<CommandEntry>(catalog(toggles, keybinds, plugin, custom)),
        distinct_commands::<CommandEntry>(catalog(toggles, keybinds, plugin, custom)),
        forall|x: CommandEntryView| #[trigger]
            catalog(toggles, keybinds, plugin, custom).contains(x) ==> merged(
                toggles,
                keybinds,
                plugin,
                custom,
            ).contains(x),
        forall|x: CommandEntryView| #[trigger]
            merged(toggles, keybinds, plugin, custom).contains(x) ==> holds_command::<CommandEntry>(
                catalog(toggles, keybinds, plugin, custom),
                x,
            ),
{
    let all = merged(toggles, keybinds, plugin, custom);
    let once = first_of_each::<CommandEntry>(all);
    let sorted = catalog(toggles, keybinds, plugin, custom);
    law_each_command_is_listed_once::<CommandEntry>(all);
    law_sorting_orders_the_rows::<CommandEntry>(once);
    law_sorting_keeps_commands_distinct::<CommandEntry>(once);
    assert forall|x: CommandEntryView| #[trigger] all.contains(x) implies holds_command::<
        CommandEntry,
    >(sorted, x) by {
        assert(holds_command::<CommandEntry>(once, x));
        let i = choose|i: int|
            0 <= i < once.len() && <CommandEntry as PaletteRow>::same_command(once[i], x);
        assert(once.contains(once[i]));
        assert(sorted.contains(once[i]));
        let j = choose|j: int| 0 <= j < sorted.len() && sorted[j] == once[i];
        assert(<CommandEntry as PaletteRow>::same_command(sorted[j], x));
    }
}

/// Plugin actions are told apart by their ids, whatever their titles.
pub proof fn law_titles_do_not_merge_plugins(a: CommandEntryView, b: CommandEntryView)
    requires
        a.handle is Plugin,
        b.handle is Plugin,
    ensures
        a.identity() == b.identity() <==> a.handle == b.handle,
{
    let head = "plugin:"@;
    let x = a.handle->Plugin_0;
    let y = b.handle->Plugin_0;
    assert((head + x).skip(head.len() as int) =~= x);
    assert((head + y).skip(head.len() as int) =~= y);
}

/// The catalog has a row of this name and description, whose chord is the given
/// one and which runs the given action; and it has no other row of that name, nor
/// one that runs that action.
pub open spec fn offers(
    keybinds: Keybinds,
    name: Seq<char>,
    description: Seq<char>,
    chord: ActionKeybinds,
    action: NavigateAction,
) -> bool {
    let row = CommandEntryView {
        name,
        description: Some(description),
        keybinding: chord.text(),
        source: CommandSource::BuiltIn,
        handle: CommandHandleView::Navigate(action),
    };
    &&& builtin_catalog(keybinds).contains(row)
    &&& forall|x: CommandEntryView| #[trigger]
        builtin_catalog(keybinds).contains(x) && (x.name == name || x.handle
            == CommandHandleView::Navigate(action)) ==> x == row
}

proof fn lemma_offers(keybinds: Keybinds, chord: ActionKeybinds, action: NavigateAction)
    requires
        entry_text(as_keybind(action)) is Some,
        chord_of(keybinds, as_keybind(action)) == chord.text(),
    ensures
        offers(
            keybinds,
            (entry_text(as_keybind(action))->0).0,
            (entry_text(as_keybind(action))->0).1,
            chord,
            action,
        ),
{
    let rows = builtin_catalog(keybinds);
    let names = names_of::<CommandEntry>(rows);
    let text = entry_text(as_keybind(action))->0;
    let row = builtin_row(keybinds, action, text);
    law_catalog_is_sound(keybinds);
    law_catalog_is_complete(keybinds, action);
    assert forall|x: CommandEntryView| #[trigger] rows.contains(x) && (x.name == text.0 || x.handle
        == CommandHandleView::Navigate(action)) implies x == row by {
        assert(is_builtin_row(keybinds, x));
        if x.name == text.0 {
            let other = x.handle->Navigate_0;
            law_names_tell_actions_apart(as_keybind(other), as_keybind(action));
            law_actions_are_bound_apart(other, action);
        }
    }
    let i = choose|i: int| 0 <= i < names.len() && names[i] == text.0;
    assert(rows.contains(rows[i]));
}

/// A built-in row runs the action that it names, and shows the chord of that
/// action.
#[verifier::spinoff_prover]
pub proof fn law_built_in_rows_run_what_they_name(keybinds: Keybinds)
    ensures
        offers(
            keybinds,
            "new-workspace"@,
            "Create a new workspace"@,
            keybinds.new_workspace,
            NavigateAction::NewWorkspace,
        ),
        offers(
            keybinds,
            "new-worktree"@,
            "Create a new linked worktree"@,
            keybinds.new_worktree,
            NavigateAction::NewWorktree,
        ),
        offers(
            keybinds,
            "open-worktree"@,
            "Open an existing worktree"@,
            keybinds.open_worktree,
            NavigateAction::OpenWorktree,
        ),
        offers(
            keybinds,
            "remove-worktree"@,
            "Remove a worktree"@,
            keybinds.remove_worktree,
            NavigateAction::RemoveWorktree,
        ),
        offers(
            keybinds,
            "rename-workspace"@,
            "Rename the current workspace"@,
            keybinds.rename_workspace,
            NavigateAction::RenameWorkspace,
        ),
        offers(
            keybinds,
            "close-workspace"@,
            "Close the current workspace"@,
            keybinds.close_workspace,
            NavigateAction::CloseWorkspace,
        ),
        offers(
            keybinds,
            "workspace-picker"@,
            "Pick a workspace"@,
            keybinds.workspace_picker,
            NavigateAction::WorkspacePicker,
        ),
        offers(
            keybinds,
            "previous-workspace"@,
            "Switch to the previous workspace"@,
            keybinds.previous_workspace,
            NavigateAction::PreviousWorkspace,
        ),
        offers(
            keybinds,
            "next-workspace"@,
            "Switch to the next workspace"@,
            keybinds.next_workspace,
            NavigateAction::NextWorkspace,
        ),
        offers(
            keybinds,
            "previous-agent"@,
            "Focus the previous agent"@,
            keybinds.previous_agent,
            NavigateAction::PreviousAgent,
        ),
        offers(
            keybinds,
            "next-agent"@,
            "Focus the next agent"@,
            keybinds.next_agent,
            NavigateAction::NextAgent,
        ),
        offers(
            keybinds,
            "new-tab"@,
            "Create a new tab"@,
            keybinds.new_tab,
            NavigateAction::NewTab,
        ),
        offers(
            keybinds,
            "rename-tab"@,
            "Rename the current tab"@,
            keybinds.rename_tab,
            NavigateAction::RenameTab,
        ),
        offers(
            keybinds,
            "previous-tab"@,
            "Switch to the previous tab"@,
            keybinds.previous_tab,
            NavigateAction::PreviousTab,
        ),
        offers(
            keybinds,
            "next-tab"@,
            "Switch to the next tab"@,
            keybinds.next_tab,
            NavigateAction::NextTab,
        ),
        offers(
            keybinds,
            "close-tab"@,
            "Close the current tab"@,
            keybinds.close_tab,
            NavigateAction::CloseTab,
        ),
        offers(
            keybinds,
            "rename-pane"@,
            "Rename the current pane"@,
            keybinds.rename_pane,
            NavigateAction::RenamePane,
        ),
        offers(
            keybinds,
            "focus-pane-left"@,
            "Focus the pane to the left"@,
            keybinds.focus_pane_left,
            NavigateAction::FocusPaneLeft,
        ),
        offers(
            keybinds,
            "focus-pane-down"@,
            "Focus the pane below"@,
            keybinds.focus_pane_down,
            NavigateAction::FocusPaneDown,
        ),
        offers(
            keybinds,
            "focus-pane-up"@,
            "Focus the pane above"@,
            keybinds.focus_pane_up,
            NavigateAction::FocusPaneUp,
        ),
        offers(
            keybinds,
            "focus-pane-right"@,
            "Focus the pane to the right"@,
            keybinds.focus_pane_right,
            NavigateAction::FocusPaneRight,
        ),
        offers(
            keybinds,
            "swap-pane-left"@,
            "Swap with the pane to the left"@,
            keybinds.swap_pane_left,
            NavigateAction::SwapPaneLeft,
        ),
        offers(
            keybinds,
            "swap-pane-down"@,
            "Swap with the pane below"@,
            keybinds.swap_pane_down,
            NavigateAction::SwapPaneDown,
        ),
        offers(
            keybinds,
            "swap-pane-up"@,
            "Swap with the pane above"@,
            keybinds.swap_pane_up,
            NavigateAction::SwapPaneUp,
        ),
        offers(
            keybinds,
            "swap-pane-right"@,
            "Swap with the pane to the right"@,
            keybinds.swap_pane_right,
            NavigateAction::SwapPaneRight,
        ),
        offers(
            keybinds,
            "split-vertical"@,
            "Split the pane vertically"@,
            keybinds.split_vertical,
            NavigateAction::SplitVertical,
        ),
        offers(
            keybinds,
            "split-horizontal"@,
            "Split the pane horizontally"@,
            keybinds.split_horizontal,
            NavigateAction::SplitHorizontal,
        ),
        offers(
            keybinds,
            "close-pane"@,
            "Close the current pane"@,
            keybinds.close_pane,
            NavigateAction::ClosePane,
        ),
        offers(
            keybinds,
            "edit-scrollback"@,
            "Edit the scrollback buffer"@,
            keybinds.edit_scrollback,
            NavigateAction::EditScrollback,
        ),
        offers(
            keybinds,
            "copy-mode"@,
            "Enter copy mode"@,
            keybinds.copy_mode,
            NavigateAction::CopyMode,
        ),
        offers(
            keybinds,
            "zoom"@,
            "Toggle pane zoom"@,
            keybinds.zoom,
            NavigateAction::Zoom,
        ),
        offers(
            keybinds,
            "resize-mode"@,
            "Enter pane resize mode"@,
            keybinds.resize_mode,
            NavigateAction::EnterResizeMode,
        ),
        offers(
            keybinds,
            "toggle-sidebar"@,
            "Toggle the sidebar"@,
            keybinds.toggle_sidebar,
            NavigateAction::ToggleSidebar,
        ),
        offers(
            keybinds,
            "cycle-pane-next"@,
            "Cycle to the next pane"@,
            keybinds.cycle_pane_next,
            NavigateAction::CyclePaneNext,
        ),
        offers(
            keybinds,
            "cycle-pane-previous"@,
            "Cycle to the previous pane"@,
            keybinds.cycle_pane_previous,
            NavigateAction::CyclePanePrevious,
        ),
        offers(
            keybinds,
            "last-pane"@,
            "Focus the last active pane"@,
            keybinds.last_pane,
            NavigateAction::LastPane,
        ),
        offers(
            keybinds,
            "help"@,
            "Open keybinding help"@,
            keybinds.help,
            NavigateAction::Help,
        ),
        offers(
            keybinds,
            "settings"@,
            "Open settings"@,
            keybinds.settings,
            NavigateAction::Settings,
        ),
        offers(
            keybinds,
            "reload-config"@,
            "Reload configuration"@,
            keybinds.reload_config,
            NavigateAction::ReloadConfig,
        ),
        offers(
            keybinds,
            "open-notification-target"@,
            "Jump to the notification target"@,
            keybinds.open_notification_target,
            NavigateAction::OpenNotificationTarget,
        ),
        offers(
            keybinds,
            "detach"@,
            "Detach from the session"@,
            keybinds.detach,
            NavigateAction::Detach,
        ),
        offers(
            keybinds,
            "navigator"@,
            "Open the navigator"@,
            keybinds.goto,
            NavigateAction::OpenNavigator,
        ),
{
    lemma_offers(keybinds, keybinds.new_workspace, NavigateAction::NewWorkspace);
    lemma_offers(keybinds, keybinds.new_worktree, NavigateAction::NewWorktree);
    lemma_offers(keybinds, keybinds.open_worktree, NavigateAction::OpenWorktree);
    lemma_offers(keybinds, keybinds.remove_worktree, NavigateAction::RemoveWorktree);
    lemma_offers(keybinds, keybinds.rename_workspace, NavigateAction::RenameWorkspace);
    lemma_offers(keybinds, keybinds.close_workspace, NavigateAction::CloseWorkspace);
    lemma_offers(keybinds, keybinds.workspace_picker, NavigateAction::WorkspacePicker);
    lemma_offers(keybinds, keybinds.previous_workspace, NavigateAction::PreviousWorkspace);
    lemma_offers(keybinds, keybinds.next_workspace, NavigateAction::NextWorkspace);
    lemma_offers(keybinds, keybinds.previous_agent, NavigateAction::PreviousAgent);
    lemma_offers(keybinds, keybinds.next_agent, NavigateAction::NextAgent);
    lemma_offers(keybinds, keybinds.new_tab, NavigateAction::NewTab);
    lemma_offers(keybinds, keybinds.rename_tab, NavigateAction::RenameTab);
    lemma_offers(keybinds, keybinds.previous_tab, NavigateAction::PreviousTab);
    lemma_offers(keybinds, keybinds.next_tab, NavigateAction::NextTab);
    lemma_offers(keybinds, keybinds.close_tab, NavigateAction::CloseTab);
    lemma_offers(keybinds, keybinds.rename_pane, NavigateAction::RenamePane);
    lemma_offers(keybinds, keybinds.focus_pane_left, NavigateAction::FocusPaneLeft);
    lemma_offers(keybinds, keybinds.focus_pane_down, NavigateAction::FocusPaneDown);
    lemma_offers(keybinds, keybinds.focus_pane_up, NavigateAction::FocusPaneUp);
    lemma_offers(keybinds, keybinds.focus_pane_right, NavigateAction::FocusPaneRight);
    lemma_offers(keybinds, keybinds.swap_pane_left, NavigateAction::SwapPaneLeft);
    lemma_offers(keybinds, keybinds.swap_pane_down, NavigateAction::SwapPaneDown);
    lemma_offers(keybinds, keybinds.swap_pane_up, NavigateAction::SwapPaneUp);
    lemma_offers(keybinds, keybinds.swap_pane_right, NavigateAction::SwapPaneRight);
    lemma_offers(keybinds, keybinds.split_vertical, NavigateAction::SplitVertical);
    lemma_offers(keybinds, keybinds.split_horizontal, NavigateAction::SplitHorizontal);
    lemma_offers(keybinds, keybinds.close_pane, NavigateAction::ClosePane);
    lemma_offers(keybinds, keybinds.edit_scrollback, NavigateAction::EditScrollback);
    lemma_offers(keybinds, keybinds.copy_mode, NavigateAction::CopyMode);
    lemma_offers(keybinds, keybinds.zoom, NavigateAction::Zoom);
    lemma_offers(keybinds, keybinds.resize_mode, NavigateAction::EnterResizeMode);
    lemma_offers(keybinds, keybinds.toggle_sidebar, NavigateAction::ToggleSidebar);
    lemma_offers(keybinds, keybinds.cycle_pane_next, NavigateAction::CyclePaneNext);
    lemma_offers(keybinds, keybinds.cycle_pane_previous, NavigateAction::CyclePanePrevious);
    lemma_offers(keybinds, keybinds.last_pane, NavigateAction::LastPane);
    lemma_offers(keybinds, keybinds.help, NavigateAction::Help);
    lemma_offers(keybinds, keybinds.settings, NavigateAction::Settings);
    lemma_offers(keybinds, keybinds.reload_config, NavigateAction::ReloadConfig);
    lemma_offers(keybinds, keybinds.open_notification_target, NavigateAction::OpenNotificationTarget);
    lemma_offers(keybinds, keybinds.detach, NavigateAction::Detach);
    lemma_offers(keybinds, keybinds.goto, NavigateAction::OpenNavigator);
}

/// The catalog of built-ins offers neither the palette itself nor an action with
/// a fixed index.
pub proof fn law_catalog_offers_no_fixed_index(keybinds: Keybinds, row: CommandEntryView)
    requires
        builtin_catalog(keybinds).contains(row),
    ensures
        row.source == CommandSource::BuiltIn,
        row.handle matches CommandHandleView::Navigate(action) && action
            != NavigateAction::OpenCommandPalette && !(action is SwitchWorkspace) && !(
        action is SwitchTab) && !(action is FocusAgent),
{
    law_catalog_is_sound(keybinds);
    assert(is_builtin_row(keybinds, row));
}

/// The key of a row is that of what it runs: an action by the name of its variant,
/// a plugin action by its full id, a custom command by its own id.
#[verifier::spinoff_prover]
pub proof fn law_identity_keys(row: CommandEntryView, i: usize, id: Seq<char>)
    ensures
        (CommandEntryView {
            handle: CommandHandleView::Navigate(NavigateAction::NewWorkspace),
            ..row
        }).identity() == "nav:NewWorkspace"@,
        (CommandEntryView {
            handle: CommandHandleView::Navigate(NavigateAction::NewWorktree),
            ..row
        }).identity() == "nav:NewWorktree"@,
        (CommandEntryView {
            handle: CommandHandleView::Navigate(NavigateAction::OpenWorktree),
            ..row
        }).identity() == "nav:OpenWorktree"@,
        (CommandEntryView {
            handle: CommandHandleView::Navigate(NavigateAction::RemoveWorktree),
            ..row
        }).identity() == "nav:RemoveWorktree"@,
        (CommandEntryView {
            handle: CommandHandleView::Navigate(NavigateAction::RenameWorkspace),
            ..row
        }).identity() == "nav:RenameWorkspace"@,
        (CommandEntryView {
            handle: CommandHandleView::Navigate(NavigateAction::CloseWorkspace),
            ..row
        }).identity() == "nav:CloseWorkspace"@,
        (CommandEntryView {
            handle: CommandHandleView::Navigate(NavigateAction::WorkspacePicker),
            ..row
        }).identity() == "nav:WorkspacePicker"@,
        (CommandEntryView {
            handle: CommandHandleView::Navigate(NavigateAction::PreviousWorkspace),
            ..row
        }).identity() == "nav:PreviousWorkspace"@,
        (CommandEntryView {
            handle: CommandHandleView::Navigate(NavigateAction::NextWorkspace),
            ..row
        }).identity() == "nav:NextWorkspace"@,
        (CommandEntryView {
            handle: CommandHandleView::Navigate(NavigateAction::PreviousAgent),
            ..row
        }).identity() == "nav:PreviousAgent"@,
        (CommandEntryView {
            handle: CommandHandleView::Navigate(NavigateAction::NextAgent),
            ..row
        }).identity() == "nav:NextAgent"@,
        (CommandEntryView {
            handle: CommandHandleView::Navigate(NavigateAction::NewTab),
            ..row
        }).identity() == "nav:NewTab"@,
        (CommandEntryView {
            handle: CommandHandleView::Navigate(NavigateAction::RenameTab),
            ..row
        }).identity() == "nav:RenameTab"@,
        (CommandEntryView {
            handle: CommandHandleView::Navigate(NavigateAction::PreviousTab),
            ..row
        }).identity() == "nav:PreviousTab"@,
        (CommandEntryView {
            handle: CommandHandleView::Navigate(NavigateAction::NextTab),
            ..row
        }).identity() == "nav:NextTab"@,
        (CommandEntryView {
            handle: CommandHandleView::Navigate(NavigateAction::CloseTab),
            ..row
        }).identity() == "nav:CloseTab"@,
        (CommandEntryView {
            handle: CommandHandleView::Navigate(NavigateAction::RenamePane),
            ..row
        }).identity() == "nav:RenamePane"@,
        (CommandEntryView {
            handle: CommandHandleView::Navigate(NavigateAction::FocusPaneLeft),
            ..row
        }).identity() == "nav:FocusPaneLeft"@,
        (CommandEntryView {
            handle: CommandHandleView::Navigate(NavigateAction::FocusPaneDown),
            ..row
        }).identity() == "nav:FocusPaneDown"@,
        (CommandEntryView {
            handle: CommandHandleView::Navigate(NavigateAction::FocusPaneUp),
            ..row
        }).identity() == "nav:FocusPaneUp"@,
        (CommandEntryView {
            handle: CommandHandleView::Navigate(NavigateAction::FocusPaneRight),
            ..row
        }).identity() == "nav:FocusPaneRight"@,
        (CommandEntryView {
            handle: CommandHandleView::Navigate(NavigateAction::SwapPaneLeft),
            ..row
        }).identity() == "nav:SwapPaneLeft"@,
        (CommandEntryView {
            handle: CommandHandleView::Navigate(NavigateAction::SwapPaneDown),
            ..row
        }).identity() == "nav:SwapPaneDown"@,
        (CommandEntryView {
            handle: CommandHandleView::Navigate(NavigateAction::SwapPaneUp),
            ..row
        }).identity() == "nav:SwapPaneUp"@,
        (CommandEntryView {
            handle: CommandHandleView::Navigate(NavigateAction::SwapPaneRight),
            ..row
        }).identity() == "nav:SwapPaneRight"@,
        (CommandEntryView {
            handle: CommandHandleView::Navigate(NavigateAction::SplitVertical),
            ..row
        }).identity() == "nav:SplitVertical"@,
        (CommandEntryView {
            handle: CommandHandleView::Navigate(NavigateAction::SplitHorizontal),
            ..row
        }).identity() == "nav:SplitHorizontal"@,
        (CommandEntryView {
            handle: CommandHandleView::Navigate(NavigateAction::ClosePane),
            ..row
        }).identity() == "nav:ClosePane"@,
        (CommandEntryView {
            handle: CommandHandleView::Navigate(NavigateAction::EditScrollback),
            ..row
        }).identity() == "nav:EditScrollback"@,
        (CommandEntryView {
            handle: CommandHandleView::Navigate(NavigateAction::CopyMode),
            ..row
        }).identity() == "nav:CopyMode"@,
        (CommandEntryView {
            handle: CommandHandleView::Navigate(NavigateAction::Zoom),
            ..row
        }).identity() == "nav:Zoom"@,
        (CommandEntryView {
            handle: CommandHandleView::Navigate(NavigateAction::EnterResizeMode),
            ..row
        }).identity() == "nav:EnterResizeMode"@,
        (CommandEntryView {
            handle: CommandHandleView::Navigate(NavigateAction::ToggleSidebar),
            ..row
        }).identity() == "nav:ToggleSidebar"@,
        (CommandEntryView {
            handle: CommandHandleView::Navigate(NavigateAction::CyclePaneNext),
            ..row
        }).identity() == "nav:CyclePaneNext"@,
        (CommandEntryView {
            handle: CommandHandleView::Navigate(NavigateAction::CyclePanePrevious),
            ..row
        }).identity() == "nav:CyclePanePrevious"@,
        (CommandEntryView {
            handle: CommandHandleView::Navigate(NavigateAction::LastPane),
            ..row
        }).identity() == "nav:LastPane"@,
        (CommandEntryView {
            handle: CommandHandleView::Navigate(NavigateAction::Help),
            ..row
        }).identity() == "nav:Help"@,
        (CommandEntryView {
            handle: CommandHandleView::Navigate(NavigateAction::Settings),
            ..row
        }).identity() == "nav:Settings"@,
        (CommandEntryView {
            handle: CommandHandleView::Navigate(NavigateAction::ReloadConfig),
            ..row
        }).identity() == "nav:ReloadConfig"@,
        (CommandEntryView {
            handle: CommandHandleView::Navigate(NavigateAction::OpenNotificationTarget),
            ..row
        }).identity() == "nav:OpenNotificationTarget"@,
        (CommandEntryView {
            handle: CommandHandleView::Navigate(NavigateAction::Detach),
            ..row
        }).identity() == "nav:Detach"@,
        (CommandEntryView {
            handle: CommandHandleView::Navigate(NavigateAction::OpenNavigator),
            ..row
        }).identity() == "nav:OpenNavigator"@,
        (CommandEntryView {
            handle: CommandHandleView::Navigate(NavigateAction::OpenCommandPalette),
            ..row
        }).identity() == "nav:OpenCommandPalette"@,
        (CommandEntryView {
            handle: CommandHandleView::Navigate(NavigateAction::SwitchWorkspace(i)),
            ..row
        }).identity() == "nav:SwitchWorkspace("@ + decimal(i as nat) + seq![')'],
        (CommandEntryView {
            handle: CommandHandleView::Navigate(NavigateAction::SwitchTab(i)),
            ..row
        }).identity() == "nav:SwitchTab("@ + decimal(i as nat) + seq![')'],
        (CommandEntryView {
            handle: CommandHandleView::Navigate(NavigateAction::FocusAgent(i)),
            ..row
        }).identity() == "nav:FocusAgent("@ + decimal(i as nat) + seq![')'],
        (CommandEntryView { handle: CommandHandleView::Plugin(id), ..row }).identity()
            == "plugin:"@ + id,
        forall|c: CustomCommandView|
            (CommandEntryView { handle: CommandHandleView::Custom(c), ..row }).identity()
                == "custom:"@ + #[trigger] c.command,
{
    reveal_strlit("nav:");
    reveal_strlit("NewWorkspace");
    reveal_strlit("nav:NewWorkspace");
    assert("nav:"@ + "NewWorkspace"@ =~= "nav:NewWorkspace"@);
    reveal_strlit("NewWorktree");
    reveal_strlit("nav:NewWorktree");
    assert("nav:"@ + "NewWorktree"@ =~= "nav:NewWorktree"@);
    reveal_strlit("OpenWorktree");
    reveal_strlit("nav:OpenWorktree");
    assert("nav:"@ + "OpenWorktree"@ =~= "nav:OpenWorktree"@);
    reveal_strlit("RemoveWorktree");
    reveal_strlit("nav:RemoveWorktree");
    assert("nav:"@ + "RemoveWorktree"@ =~= "nav:RemoveWorktree"@);
    reveal_strlit("RenameWorkspace");
    reveal_strlit("nav:RenameWorkspace");
    assert("nav:"@ + "RenameWorkspace"@ =~= "nav:RenameWorkspace"@);
    reveal_strlit("CloseWorkspace");
    reveal_strlit("nav:CloseWorkspace");
    assert("nav:"@ + "CloseWorkspace"@ =~= "nav:CloseWorkspace"@);
    reveal_strlit("WorkspacePicker");
    reveal_strlit("nav:WorkspacePicker");
    assert("nav:"@ + "WorkspacePicker"@ =~= "nav:WorkspacePicker"@);
    reveal_strlit("PreviousWorkspace");
    reveal_strlit("nav:PreviousWorkspace");
    assert("nav:"@ + "PreviousWorkspace"@ =~= "nav:PreviousWorkspace"@);
    reveal_strlit("NextWorkspace");
    reveal_strlit("nav:NextWorkspace");
    assert("nav:"@ + "NextWorkspace"@ =~= "nav:NextWorkspace"@);
    reveal_strlit("PreviousAgent");
    reveal_strlit("nav:PreviousAgent");
    assert("nav:"@ + "PreviousAgent"@ =~= "nav:PreviousAgent"@);
    reveal_strlit("NextAgent");
    reveal_strlit("nav:NextAgent");
    assert("nav:"@ + "NextAgent"@ =~= "nav:NextAgent"@);
    reveal_strlit("NewTab");
    reveal_strlit("nav:NewTab");
    assert("nav:"@ + "NewTab"@ =~= "nav:NewTab"@);
    reveal_strlit("RenameTab");
    reveal_strlit("nav:RenameTab");
    assert("nav:"@ + "RenameTab"@ =~= "nav:RenameTab"@);
    reveal_strlit("PreviousTab");
    reveal_strlit("nav:PreviousTab");
    assert("nav:"@ + "PreviousTab"@ =~= "nav:PreviousTab"@);
    reveal_strlit("NextTab");
    reveal_strlit("nav:NextTab");
    assert("nav:"@ + "NextTab"@ =~= "nav:NextTab"@);
    reveal_strlit("CloseTab");
    reveal_strlit("nav:CloseTab");
    assert("nav:"@ + "CloseTab"@ =~= "nav:CloseTab"@);
    reveal_strlit("RenamePane");
    reveal_strlit("nav:RenamePane");
    assert("nav:"@ + "RenamePane"@ =~= "nav:RenamePane"@);
    reveal_strlit("FocusPaneLeft");
    reveal_strlit("nav:FocusPaneLeft");
    assert("nav:"@ + "FocusPaneLeft"@ =~= "nav:FocusPaneLeft"@);
    reveal_strlit("FocusPaneDown");
    reveal_strlit("nav:FocusPaneDown");
    assert("nav:"@ + "FocusPaneDown"@ =~= "nav:FocusPaneDown"@);
    reveal_strlit("FocusPaneUp");
    reveal_strlit("nav:FocusPaneUp");
    assert("nav:"@ + "FocusPaneUp"@ =~= "nav:FocusPaneUp"@);
    reveal_strlit("FocusPaneRight");
    reveal_strlit("nav:FocusPaneRight");
    assert("nav:"@ + "FocusPaneRight"@ =~= "nav:FocusPaneRight"@);
    reveal_strlit("SwapPaneLeft");
    reveal_strlit("nav:SwapPaneLeft");
    assert("nav:"@ + "SwapPaneLeft"@ =~= "nav:SwapPaneLeft"@);
    reveal_strlit("SwapPaneDown");
    reveal_strlit("nav:SwapPaneDown");
    assert("nav:"@ + "SwapPaneDown"@ =~= "nav:SwapPaneDown"@);
    reveal_strlit("SwapPaneUp");
    reveal_strlit("nav:SwapPaneUp");
    assert("nav:"@ + "SwapPaneUp"@ =~= "nav:SwapPaneUp"@);
    reveal_strlit("SwapPaneRight");
    reveal_strlit("nav:SwapPaneRight");
    assert("nav:"@ + "SwapPaneRight"@ =~= "nav:SwapPaneRight"@);
    reveal_strlit("SplitVertical");
    reveal_strlit("nav:SplitVertical");
    assert("nav:"@ + "SplitVertical"@ =~= "nav:SplitVertical"@);
    reveal_strlit("SplitHorizontal");
    reveal_strlit("nav:SplitHorizontal");
    assert("nav:"@ + "SplitHorizontal"@ =~= "nav:SplitHorizontal"@);
    reveal_strlit("ClosePane");
    reveal_strlit("nav:ClosePane");
    assert("nav:"@ + "ClosePane"@ =~= "nav:ClosePane"@);
    reveal_strlit("EditScrollback");
    reveal_strlit("nav:EditScrollback");
    assert("nav:"@ + "EditScrollback"@ =~= "nav:EditScrollback"@);
    reveal_strlit("CopyMode");
    reveal_strlit("nav:CopyMode");
    assert("nav:"@ + "CopyMode"@ =~= "nav:CopyMode"@);
    reveal_strlit("Zoom");
    reveal_strlit("nav:Zoom");
    assert("nav:"@ + "Zoom"@ =~= "nav:Zoom"@);
    reveal_strlit("EnterResizeMode");
    reveal_strlit("nav:EnterResizeMode");
    assert("nav:"@ + "EnterResizeMode"@ =~= "nav:EnterResizeMode"@);
    reveal_strlit("ToggleSidebar");
    reveal_strlit("nav:ToggleSidebar");
    assert("nav:"@ + "ToggleSidebar"@ =~= "nav:ToggleSidebar"@);
    reveal_strlit("CyclePaneNext");
    reveal_strlit("nav:CyclePaneNext");
    assert("nav:"@ + "CyclePaneNext"@ =~= "nav:CyclePaneNext"@);
    reveal_strlit("CyclePanePrevious");
    reveal_strlit("nav:CyclePanePrevious");
    assert("nav:"@ + "CyclePanePrevious"@ =~= "nav:CyclePanePrevious"@);
    reveal_strlit("LastPane");
    reveal_strlit("nav:LastPane");
    assert("nav:"@ + "LastPane"@ =~= "nav:LastPane"@);
    reveal_strlit("Help");
    reveal_strlit("nav:Help");
    assert("nav:"@ + "Help"@ =~= "nav:Help"@);
    reveal_strlit("Settings");
    reveal_strlit("nav:Settings");
    assert("nav:"@ + "Settings"@ =~= "nav:Settings"@);
    reveal_strlit("ReloadConfig");
    reveal_strlit("nav:ReloadConfig");
    assert("nav:"@ + "ReloadConfig"@ =~= "nav:ReloadConfig"@);
    reveal_strlit("OpenNotificationTarget");
    reveal_strlit("nav:OpenNotificationTarget");
    assert("nav:"@ + "OpenNotificationTarget"@ =~= "nav:OpenNotificationTarget"@);
    reveal_strlit("Detach");
    reveal_strlit("nav:Detach");
    assert("nav:"@ + "Detach"@ =~= "nav:Detach"@);
    reveal_strlit("OpenNavigator");
    reveal_strlit("nav:OpenNavigator");
    assert("nav:"@ + "OpenNavigator"@ =~= "nav:OpenNavigator"@);
    reveal_strlit("OpenCommandPalette");
    reveal_strlit("nav:OpenCommandPalette");
    assert("nav:"@ + "OpenCommandPalette"@ =~= "nav:OpenCommandPalette"@);
    reveal_strlit("SwitchWorkspace(");
    reveal_strlit("nav:SwitchWorkspace(");
    assert("nav:"@ + "SwitchWorkspace("@ =~= "nav:SwitchWorkspace("@);
    reveal_strlit("SwitchTab(");
    reveal_strlit("nav:SwitchTab(");
    assert("nav:"@ + "SwitchTab("@ =~= "nav:SwitchTab("@);
    reveal_strlit("FocusAgent(");
    reveal_strlit("nav:FocusAgent(");
    assert("nav:"@ + "FocusAgent("@ =~= "nav:FocusAgent("@);
    assert("nav:"@ + ("SwitchWorkspace("@ + decimal(i as nat)).push(')') =~= "nav:SwitchWorkspace("@ + decimal(i as nat)
        + seq![')']);
    assert("nav:"@ + ("SwitchTab("@ + decimal(i as nat)).push(')') =~= "nav:SwitchTab("@ + decimal(i as nat)
        + seq![')']);
    assert("nav:"@ + ("FocusAgent("@ + decimal(i as nat)).push(')') =~= "nav:FocusAgent("@ + decimal(i as nat)
        + seq![')']);
}

/// Rows of different sources run different commands.
pub proof fn law_sources_run_different_commands(a: CommandEntryView, b: CommandEntryView)
    requires
        a.identity() == b.identity(),
    ensures
        a.handle is Navigate <==> b.handle is Navigate,
        a.handle is Plugin <==> b.handle is Plugin,
        a.handle is Custom <==> b.handle is Custom,
{
    lemma_first_letter(a);
    lemma_first_letter(b);
}

proof fn lemma_first_letter(row: CommandEntryView)
    ensures
        row.handle is Navigate ==> row.identity()[0] == 'n',
        row.handle is Plugin ==> row.identity()[0] == 'p',
        row.handle is Custom ==> row.identity()[0] == 'c',
{
    reveal_strlit("nav:");
    reveal_strlit("plugin:");
    reveal_strlit("custom:");
    match row.handle {
        CommandHandleView::Navigate(action) => {
            assert(("nav:"@ + variant_text(action))[0] == "nav:"@[0]);
        },
        CommandHandleView::Plugin(id) => {
            assert(("plugin:"@ + id)[0] == "plugin:"@[0]);
        },
        CommandHandleView::Custom(command) => {
            assert(("custom:"@ + command.command)[0] == "custom:"@[0]);
        },
    }
}

/// The catalog lists the built-ins, the plugin actions and the user's own commands
/// where their source is on, the first row of each command, and nothing else.
#[verifier::spinoff_prover]
pub proof fn law_sources_decide_the_rows(
    toggles: SourceToggles,
    keybinds: Keybinds,
    plugin: Seq<CommandEntryView>,
    custom: Seq<CommandEntryView>,
    i: int,
)
    requires
        forall|k: int|
            0 <= k < plugin.len() ==> (#[trigger] plugin[k]).handle is Plugin,
        forall|k: int|
            0 <= k < custom.len() ==> (#[trigger] custom[k]).handle is Custom,
    ensures
        ({
            let rows = catalog(toggles, keybinds, plugin, custom);
            &&& toggles.built_in ==> forall|x: CommandEntryView| #[trigger]
                builtin_catalog(keybinds).contains(x) ==> rows.contains(x)
            &&& toggles.plugin && 0 <= i < plugin.len() && (forall|j: int|
                0 <= j < i ==> (#[trigger] plugin[j]).handle != plugin[i].handle)
                ==> rows.contains(plugin[i])
            &&& toggles.custom && 0 <= i < custom.len() && (forall|j: int|
                0 <= j < i ==> (#[trigger] custom[j]).handle->Custom_0.command
                    != custom[i].handle->Custom_0.command) ==> rows.contains(custom[i])
            &&& forall|x: CommandEntryView| #[trigger]
                rows.contains(x) ==> {
                    ||| toggles.built_in && builtin_catalog(keybinds).contains(x)
                    ||| toggles.plugin && plugin.contains(x)
                    ||| toggles.custom && custom.contains(x)
                }
        }),
{
    let none = Seq::<CommandEntryView>::empty();
    let first = if toggles.built_in {
        builtin_catalog(keybinds)
    } else {
        none
    };
    let second = if toggles.plugin {
        plugin
    } else {
        none
    };
    let third = if toggles.custom {
        custom
    } else {
        none
    };
    let all = merged(toggles, keybinds, plugin, custom);
    let once = first_of_each::<CommandEntry>(all);
    let rows = catalog(toggles, keybinds, plugin, custom);
    law_catalog_is_sound(keybinds);
    law_each_command_is_listed_once::<CommandEntry>(all);
    law_sorting_orders_the_rows::<CommandEntry>(once);
    assert forall|x: CommandEntryView| #[trigger] first.contains(x) implies rows.contains(x) by {
        let k = choose|k: int| 0 <= k < first.len() && first[k] == x;
        assert(all[k] == x);
        assert(is_builtin_row(keybinds, x));
        assert forall|j: int| 0 <= j < k implies !<CommandEntry as PaletteRow>::same_command(
            #[trigger] all[j],
            all[k],
        ) by {
            assert(all[j] == first[j]);
            assert(first.contains(first[j]));
            assert(is_builtin_row(keybinds, first[j]));
            assert(text_less(first[j].name, first[k].name));
            lemma_text_less_irreflexive(first[k].name);
            if first[j].identity() == x.identity() {
                lemma_same_variant(first[j], x);
            }
        }
        law_first_of_a_command_is_kept::<CommandEntry>(all, k);
    }
    if toggles.plugin && 0 <= i < plugin.len() && (forall|j: int|
        0 <= j < i ==> (#[trigger] plugin[j]).handle != plugin[i].handle) {
        let k = first.len() + i;
        assert(all[k] == plugin[i]);
        assert forall|j: int| 0 <= j < k implies !<CommandEntry as PaletteRow>::same_command(
            #[trigger] all[j],
            all[k],
        ) by {
            if j < first.len() {
                assert(first.contains(all[j]));
                assert(is_builtin_row(keybinds, all[j]));
                if all[j].identity() == all[k].identity() {
                    law_sources_run_different_commands(all[j], all[k]);
                }
            } else {
                assert(all[j] == plugin[j - first.len()]);
                law_titles_do_not_merge_plugins(all[j], all[k]);
            }
        }
        law_first_of_a_command_is_kept::<CommandEntry>(all, k);
    }
    if toggles.custom && 0 <= i < custom.len() && (forall|j: int|
        0 <= j < i ==> (#[trigger] custom[j]).handle->Custom_0.command
            != custom[i].handle->Custom_0.command) {
        let k = first.len() + second.len() + i;
        assert(all[k] == custom[i]);
        assert forall|j: int| 0 <= j < k implies !<CommandEntry as PaletteRow>::same_command(
            #[trigger] all[j],
            all[k],
        ) by {
            if all[j].identity() == all[k].identity() {
                law_sources_run_different_commands(all[j], all[k]);
            }
            if j < first.len() {
                assert(first.contains(all[j]));
                assert(is_builtin_row(keybinds, all[j]));
            } else if j < first.len() + second.len() {
                assert(all[j] == plugin[j - first.len()]);
            } else {
                assert(all[j] == custom[j - first.len() - second.len()]);
                let head = "custom:"@;
                let x = all[j].handle->Custom_0.command;
                let y = all[k].handle->Custom_0.command;
                assert((head + x).skip(head.len() as int) =~= x);
                assert((head + y).skip(head.len() as int) =~= y);
            }
        }
        law_first_of_a_command_is_kept::<CommandEntry>(all, k);
    }
    assert forall|x: CommandEntryView| #[trigger] rows.contains(x) implies {
        ||| toggles.built_in && builtin_catalog(keybinds).contains(x)
        ||| toggles.plugin && plugin.contains(x)
        ||| toggles.custom && custom.contains(x)
    } by {
        assert(once.contains(x));
        assert(all.contains(x));
        let k = choose|k: int| 0 <= k < all.len() && all[k] == x;
        if k < first.len() {
            assert(first[k] == x);
        } else if k < first.len() + second.len() {
            assert(second[k - first.len()] == x);
        } else {
            assert(third[k - first.len() - second.len()] == x);
        }
    }
}

proof fn lemma_same_variant(a: CommandEntryView, b: CommandEntryView)
    requires
        a.handle is Navigate,
        b.handle is Navigate,
        navigate_picker(a.handle->Navigate_0) is None,
        navigate_picker(b.handle->Navigate_0) is None,
        a.identity() == b.identity(),
    ensures
        a.handle == b.handle,
{
    let head = "nav:"@;
    let x = variant_text(a.handle->Navigate_0);
    let y = variant_text(b.handle->Navigate_0);
    assert((head + x).skip(head.len() as int) =~= x);
    assert((head + y).skip(head.len() as int) =~= y);
    law_variants_tell_actions_apart(a.handle->Navigate_0, b.handle->Navigate_0);
}

/// A plugin action is listed under its title and runs under the id of its plugin
/// and its own, with a dot between them; a custom command is listed under its label
/// with its chord, and runs as it is configured.
pub proof fn law_rows_of_plugins_and_commands(action: PluginActionView, command: CustomCommandView)
    ensures
        plugin_row(action).name == action.title,
        plugin_row(action).description == action.description,
        plugin_row(action).keybinding is None,
        plugin_row(action).source is Plugin,
        plugin_row(action).handle == CommandHandleView::Plugin(
            action.plugin_id + seq!['.'] + action.action_id,
        ),
        custom_row(command).name == command.label,
        custom_row(command).description == command.description,
        custom_row(command).keybinding == command.keybind_display,
        custom_row(command).source is Custom,
        custom_row(command).handle == CommandHandleView::Custom(command),
{
    reveal_strlit(".");
    assert("."@ =~= seq!['.']);
}

/// One step goes to the row beside, and from either end round to the other. A jump
/// goes as far as it says and stops at the ends. None of it changes the query, the
/// rows or the list.
pub proof fn law_moves_change_the_selection_only(palette: CommandPaletteView, delta: int)
    requires
        palette.selected < palette.filtered.len() <= 0xffff_ffff,
        -0x8000_0000 <= delta < 0x8000_0000,
    ensures
        ({
            let at = palette.selected as int;
            let last = palette.filtered.len() - 1;
            let to = |n: int| CommandPaletteView { selected: n as usize, ..palette };
            &&& palette.stepped(1) == to(
                if at == last {
                    0
                } else {
                    at + 1
                },
            )
            &&& palette.stepped(-1) == to(
                if at == 0 {
                    last
                } else {
                    at - 1
                },
            )
            &&& palette.jumped(delta) == to(
                if at + delta < 0 {
                    0
                } else if at + delta > last {
                    last
                } else {
                    at + delta
                },
            )
            &&& palette.at_edge(false) == to(0)
            &&& palette.at_edge(true) == to(last)
            &&& palette.filtered[at] < palette.entries.len() ==> palette.highlighted() == Some(
                palette.entries[palette.filtered[at] as int],
            )
        }),
{
    let at = palette.selected as int;
    let len = palette.filtered.len() as int;
    law_steps_wrap_around(at, len);
    if at > 0 {
        law_moves_go_as_far_as_they_say(at, len, -1);
    }
    if at + 1 < len {
        law_moves_go_as_far_as_they_say(at, len, 1);
    }
}

/// An empty list has no selected row, and stays at its start.
pub proof fn law_empty_list_has_no_row(palette: CommandPaletteView, delta: int, last: bool)
    requires
        palette.filtered.len() == 0,
    ensures
        palette.highlighted() is None,
        palette.stepped(delta).selected == 0,
        palette.jumped(delta).selected == 0,
        palette.at_edge(last).selected == 0,
{
}

} // verus!
