//! The client's command palette: its catalog, its filter, its selection, and
//! what running a row sends.
//!
//! Query, ranking and selection never leave the client. Running a row does what
//! its chord would have done, or invokes a plugin action.

use vstd::arithmetic::div_mod::lemma_mod_bound;
use vstd::prelude::*;

use crate::api::schema::{PluginActionInfo, PluginActionView};
use crate::canvas::Rect;
use crate::client::tabs::covers;
use crate::client::{
    ActionView, ClientShellAction, ClientShellInput, ClientShellOverlay, ClientShellState,
    EndpointMethod, InputView, KeybindMatch, OverlayView, ShellView,
};
use crate::lists::lemma_contains_push;
use crate::palette::actions::{
    all_actions, chord_label, chord_of, entry_of, entry_text, law_catalog_covers_every_action,
    law_names_tell_actions_apart, list_actions, picker_for, picker_of, ActionKeybinds,
    CustomCommandKeybind, CustomCommandView, KeybindAction, Keybinds,
};
use crate::palette::fuzzy::{law_empty_query_matches_all, scorable, score};
use crate::palette::rows::{
    all_scorable, by_name, can_rank, clamp_selection, clamped, distinct_commands, drop_repeats,
    first_of_each, in_name_order, in_strict_name_order, is_ranking,
    keep_first_of_each, law_duplicates_only_go, law_each_command_is_listed_once,
    law_earlier_rows_are_kept, law_empty_query_lists_all, law_first_of_a_command_is_kept,
    law_moves_go_as_far_as_they_say, law_one_row_for_each_name, law_ranked_rows_are_rows,
    law_ranking_exists, law_sorting_keeps_commands_distinct, law_sorting_orders_the_rows,
    law_steps_wrap_around, names_of, rank_rows, ranking, sort_by_name, without_repeats, wrap_selection, wrapped, PaletteRow,
};
use crate::text::{
    chars_of, copy_opt, is_whitespace, lemma_text_less_irreflexive, lemma_views_add,
    lemma_views_empty, lemma_views_push, opt_text, owned, push_text, same_text, string_of,
    text_at_most, text_less, trim_end, views, whitespace,
};

pub use crate::app::command_palette::CommandSource as ClientPaletteSource;
pub use crate::palette::fuzzy::fuzzy_score;

verus! {

// --- rows ---------------------------------------------------------------------------

/// What running a row does.
#[derive(Debug)]
pub enum ClientPaletteHandle {
    Action(KeybindAction),
    Command(CustomCommandKeybind),
    PluginAction { plugin_id: String, action_id: String },
}

/// What running a row does, with its texts as characters.
pub enum ClientHandleView {
    Action(KeybindAction),
    Command(CustomCommandView),
    PluginAction { plugin_id: Seq<char>, action_id: Seq<char> },
}

impl View for ClientPaletteHandle {
    type V = ClientHandleView;

    open spec fn view(&self) -> ClientHandleView {
        match *self {
            ClientPaletteHandle::Action(action) => ClientHandleView::Action(action),
            ClientPaletteHandle::Command(command) => ClientHandleView::Command(command@),
            ClientPaletteHandle::PluginAction { plugin_id, action_id } => {
                ClientHandleView::PluginAction { plugin_id: plugin_id@, action_id: action_id@ }
            },
        }
    }
}

impl Clone for ClientPaletteHandle {
    fn clone(&self) -> (r: ClientPaletteHandle)
        ensures
            r@ == self@,
    {
        match self {
            ClientPaletteHandle::Action(action) => ClientPaletteHandle::Action(*action),
            ClientPaletteHandle::Command(command) => ClientPaletteHandle::Command(command.clone()),
            ClientPaletteHandle::PluginAction { plugin_id, action_id } => {
                ClientPaletteHandle::PluginAction {
                    plugin_id: plugin_id.clone(),
                    action_id: action_id.clone(),
                }
            },
        }
    }
}

impl ClientHandleView {
    /// Two handles run the same command. A custom command goes by its id.
    pub open spec fn same(self, other: ClientHandleView) -> bool {
        match (self, other) {
            (ClientHandleView::Action(a), ClientHandleView::Action(b)) => a == b,
            (ClientHandleView::Command(a), ClientHandleView::Command(b)) => a.command == b.command,
            (
                ClientHandleView::PluginAction { plugin_id, action_id },
                ClientHandleView::PluginAction { plugin_id: p, action_id: a },
            ) => plugin_id == p && action_id == a,
            _ => false,
        }
    }
}

impl ClientPaletteHandle {
    pub fn runs_same(&self, other: &ClientPaletteHandle) -> (r: bool)
        ensures
            r == self@.same(other@),
    {
        match (self, other) {
            (ClientPaletteHandle::Action(a), ClientPaletteHandle::Action(b)) => *a == *b,
            (ClientPaletteHandle::Command(a), ClientPaletteHandle::Command(b)) => same_text(
                a.command.as_str(),
                b.command.as_str(),
            ),
            (
                ClientPaletteHandle::PluginAction { plugin_id, action_id },
                ClientPaletteHandle::PluginAction { plugin_id: p, action_id: a },
            ) => same_text(plugin_id.as_str(), p.as_str()) && same_text(
                action_id.as_str(),
                a.as_str(),
            ),
            _ => false,
        }
    }
}

/// One row of the palette.
#[derive(Debug)]
pub struct ClientPaletteEntry {
    pub name: String,
    pub description: Option<String>,
    pub keybinding: Option<String>,
    pub source: ClientPaletteSource,
    pub handle: ClientPaletteHandle,
}

/// One row of the palette, with its texts as characters.
pub struct ClientEntryView {
    pub name: Seq<char>,
    pub description: Option<Seq<char>>,
    pub keybinding: Option<Seq<char>>,
    pub source: ClientPaletteSource,
    pub handle: ClientHandleView,
}

impl View for ClientPaletteEntry {
    type V = ClientEntryView;

    open spec fn view(&self) -> ClientEntryView {
        ClientEntryView {
            name: self.name@,
            description: opt_text(self.description),
            keybinding: opt_text(self.keybinding),
            source: self.source,
            handle: self.handle@,
        }
    }
}

impl PaletteRow for ClientPaletteEntry {
    open spec fn row_name(row: ClientEntryView) -> Seq<char> {
        row.name
    }

    open spec fn same_command(a: ClientEntryView, b: ClientEntryView) -> bool {
        a.handle.same(b.handle)
    }

    fn name_text(&self) -> &str {
        self.name.as_str()
    }

    fn runs_same_command(&self, other: &ClientPaletteEntry) -> bool {
        self.handle.runs_same(&other.handle)
    }
}

// --- the catalog ------------------------------------------------------------------------

/// How an action appears in the palette.
#[derive(Debug)]
pub enum BuiltinDisposition {
    /// A command with a name and a description.
    Entry { name: &'static str, description: &'static str },
    /// An action with an index: one row opens the picker instead.
    RouteToPicker(KeybindAction),
    /// Not listed.
    Exclude,
}

/// How an action appears in the palette.
pub fn builtin_disposition(action: &KeybindAction) -> (r: BuiltinDisposition)
    ensures
        match r {
            BuiltinDisposition::Entry { name, description } => entry_text(*action) == Some(
                (name@, description@),
            ),
            BuiltinDisposition::RouteToPicker(target) => entry_text(*action) is None && picker_of(
                *action,
            ) == Some(target),
            BuiltinDisposition::Exclude => entry_text(*action) is None && picker_of(
                *action,
            ) is None,
        },
{
    match entry_of(*action) {
        Some((name, description)) => BuiltinDisposition::Entry { name, description },
        None => match picker_for(*action) {
            Some(target) => BuiltinDisposition::RouteToPicker(target),
            None => BuiltinDisposition::Exclude,
        },
    }
}

/// The chord bound to an action, such as `prefix+z`; `None` when it is unbound.
pub fn builtin_keybind_label(keybinds: &Keybinds, action: &KeybindAction) -> (r: Option<String>)
    ensures
        opt_text(r) == chord_of(*keybinds, *action),
{
    chord_label(keybinds, *action)
}

/// The name and description of a picker's row.
pub open spec fn picker_text(action: KeybindAction) -> (Seq<char>, Seq<char>) {
    match entry_text(action) {
        Some(text) => text,
        None => ("picker"@, ""@),
    }
}

pub fn picker_entry_text(action: &KeybindAction) -> (r: (&'static str, &'static str))
    ensures
        (r.0@, r.1@) == picker_text(*action),
{
    match builtin_disposition(action) {
        BuiltinDisposition::Entry { name, description } => (name, description),
        _ => ("picker", ""),
    }
}

/// The row that runs an action under a name and a description.
pub open spec fn builtin_row(
    keybinds: Keybinds,
    action: KeybindAction,
    text: (Seq<char>, Seq<char>),
) -> ClientEntryView {
    ClientEntryView {
        name: text.0,
        description: Some(text.1),
        keybinding: chord_of(keybinds, action),
        source: ClientPaletteSource::BuiltIn,
        handle: ClientHandleView::Action(action),
    }
}

/// The row that an action gets, if any.
pub open spec fn row_of(keybinds: Keybinds, action: KeybindAction) -> Option<ClientEntryView> {
    match entry_text(action) {
        Some(text) => Some(builtin_row(keybinds, action, text)),
        None => match picker_of(action) {
            Some(target) => Some(builtin_row(keybinds, target, picker_text(target))),
            None => None,
        },
    }
}

/// The rows of a list of actions.
pub open spec fn rows_of(keybinds: Keybinds, actions: Seq<KeybindAction>) -> Seq<ClientEntryView>
    decreases actions.len(),
{
    if actions.len() == 0 {
        Seq::empty()
    } else {
        let before = rows_of(keybinds, actions.drop_last());
        match row_of(keybinds, actions.last()) {
            Some(row) => before.push(row),
            None => before,
        }
    }
}

/// The catalog of built-ins: the rows of all actions in name order, one for
/// each name.
pub open spec fn builtin_catalog(keybinds: Keybinds) -> Seq<ClientEntryView> {
    without_repeats::<ClientPaletteEntry>(
        by_name::<ClientPaletteEntry>(rows_of(keybinds, all_actions())),
    )
}

pub fn builtin_entries(keybinds: &Keybinds) -> (r: Vec<ClientPaletteEntry>)
    ensures
        views(r@) == builtin_catalog(*keybinds),
{
    let actions = list_actions();
    let mut entries: Vec<ClientPaletteEntry> = Vec::new();
    proof {
        lemma_views_empty::<ClientPaletteEntry>();
        assert(actions@.take(0) =~= Seq::<KeybindAction>::empty());
    }
    let mut i: usize = 0;
    while i < actions.len()
        invariant
            i <= actions@.len(),
            views(entries@) == rows_of(*keybinds, actions@.take(i as int)),
        decreases actions@.len() - i,
    {
        let action = actions[i];
        let made = match builtin_disposition(&action) {
            BuiltinDisposition::Entry { name, description } => Some(
                ClientPaletteEntry {
                    name: owned(name),
                    description: Some(owned(description)),
                    keybinding: builtin_keybind_label(keybinds, &action),
                    source: ClientPaletteSource::BuiltIn,
                    handle: ClientPaletteHandle::Action(action),
                },
            ),
            BuiltinDisposition::RouteToPicker(target) => {
                let (name, description) = picker_entry_text(&target);
                Some(
                    ClientPaletteEntry {
                        name: owned(name),
                        description: Some(owned(description)),
                        keybinding: builtin_keybind_label(keybinds, &target),
                        source: ClientPaletteSource::BuiltIn,
                        handle: ClientPaletteHandle::Action(target),
                    },
                )
            },
            BuiltinDisposition::Exclude => None,
        };
        proof {
            assert(actions@.take(i as int + 1).drop_last() =~= actions@.take(i as int));
            assert(actions@.take(i as int + 1).last() == action);
        }
        if let Some(entry) = made {
            proof {
                lemma_views_push(entries@, entry);
            }
            entries.push(entry);
        }
        i = i + 1;
    }
    assert(actions@.take(i as int) =~= actions@);
    drop_repeats(sort_by_name(entries))
}

/// The row of a custom command. One without a label has its chord for a name,
/// and no chord beside it.
pub open spec fn custom_row(command: CustomCommandView) -> ClientEntryView {
    ClientEntryView {
        name: command.label,
        description: command.description,
        keybinding: command.keybind_display,
        source: ClientPaletteSource::Custom,
        handle: ClientHandleView::Command(command),
    }
}

/// The rows of custom commands.
pub open spec fn custom_rows(commands: Seq<CustomCommandView>) -> Seq<ClientEntryView> {
    commands.map_values(|command: CustomCommandView| custom_row(command))
}

/// The user's own commands as rows.
pub fn custom_entries(commands: &[CustomCommandKeybind]) -> (r: Vec<ClientPaletteEntry>)
    ensures
        views(r@) == custom_rows(views(commands@)),
{
    let mut r: Vec<ClientPaletteEntry> = Vec::new();
    let mut i: usize = 0;
    while i < commands.len()
        invariant
            i <= commands@.len(),
            r@.len() == i,
            forall|k: int| 0 <= k < i ==> (#[trigger] r@[k])@ == custom_row(commands@[k]@),
        decreases commands@.len() - i,
    {
        r.push(
            ClientPaletteEntry {
                name: commands[i].label.clone(),
                description: copy_opt(&commands[i].description),
                keybinding: copy_opt(&commands[i].keybind_display),
                source: ClientPaletteSource::Custom,
                handle: ClientPaletteHandle::Command(commands[i].clone()),
            },
        );
        i = i + 1;
    }
    assert(views(r@) =~= custom_rows(views(commands@)));
    r
}

/// The row of a plugin action.
pub open spec fn plugin_row(action: PluginActionView) -> ClientEntryView {
    ClientEntryView {
        name: action.title,
        description: action.description,
        keybinding: None,
        source: ClientPaletteSource::Plugin,
        handle: ClientHandleView::PluginAction {
            plugin_id: action.plugin_id,
            action_id: action.action_id,
        },
    }
}

/// The rows of plugin actions.
pub open spec fn plugin_rows(actions: Seq<PluginActionView>) -> Seq<ClientEntryView> {
    actions.map_values(|action: PluginActionView| plugin_row(action))
}

/// Plugin actions as rows.
pub fn plugin_entries(actions: Vec<PluginActionInfo>) -> (r: Vec<ClientPaletteEntry>)
    ensures
        views(r@) == plugin_rows(views(actions@)),
{
    make_plugin_rows(actions.as_slice())
}

fn make_plugin_rows(actions: &[PluginActionInfo]) -> (r: Vec<ClientPaletteEntry>)
    ensures
        views(r@) == plugin_rows(views(actions@)),
{
    let mut r: Vec<ClientPaletteEntry> = Vec::new();
    let mut i: usize = 0;
    while i < actions.len()
        invariant
            i <= actions@.len(),
            r@.len() == i,
            forall|k: int| 0 <= k < i ==> (#[trigger] r@[k])@ == plugin_row(actions@[k]@),
        decreases actions@.len() - i,
    {
        r.push(
            ClientPaletteEntry {
                name: actions[i].title.clone(),
                description: copy_opt(&actions[i].description),
                keybinding: None,
                source: ClientPaletteSource::Plugin,
                handle: ClientPaletteHandle::PluginAction {
                    plugin_id: actions[i].plugin_id.clone(),
                    action_id: actions[i].action_id.clone(),
                },
            },
        );
        i = i + 1;
    }
    assert(views(r@) =~= plugin_rows(views(actions@)));
    r
}

/// Each command once, in name order.
pub open spec fn normalized(entries: Seq<ClientEntryView>) -> Seq<ClientEntryView> {
    by_name::<ClientPaletteEntry>(first_of_each::<ClientPaletteEntry>(entries))
}

/// Drop rows that repeat a command, and put the rest in name order. Rows are
/// told apart by what they run, not by their names.
pub fn normalize_entries(entries: &mut Vec<ClientPaletteEntry>)
    ensures
        views(final(entries)@) == normalized(views(old(entries)@)),
{
    let mut taken: Vec<ClientPaletteEntry> = Vec::new();
    std::mem::swap(&mut taken, entries);
    *entries = sort_by_name(keep_first_of_each(taken));
}

fn copy_entries(entries: &[ClientPaletteEntry]) -> (r: Vec<ClientPaletteEntry>)
    ensures
        views(r@) == views(entries@),
{
    let mut r: Vec<ClientPaletteEntry> = Vec::new();
    let mut i: usize = 0;
    while i < entries.len()
        invariant
            i <= entries@.len(),
            r@.len() == i,
            forall|k: int| 0 <= k < i ==> (#[trigger] r@[k])@ == entries@[k]@,
        decreases entries@.len() - i,
    {
        r.push(
            ClientPaletteEntry {
                name: entries[i].name.clone(),
                description: copy_opt(&entries[i].description),
                keybinding: copy_opt(&entries[i].keybinding),
                source: entries[i].source,
                handle: entries[i].handle.clone(),
            },
        );
        i = i + 1;
    }
    assert(views(r@) =~= views(entries@));
    r
}

/// Rank rows against a query, best first.
pub fn ranked_indices(entries: &[ClientPaletteEntry], query: &str) -> (r: Vec<usize>)
    requires
        all_scorable(names_of::<ClientPaletteEntry>(views(entries@)), query@),
    ensures
        r@ == ranking(names_of::<ClientPaletteEntry>(views(entries@)), query@),
        is_ranking(names_of::<ClientPaletteEntry>(views(entries@)), query@, r@),
{
    rank_rows(entries, query)
}

// --- the open palette -------------------------------------------------------------------

/// An open palette.
#[derive(Debug)]
pub struct ClientCommandPaletteOverlay {
    pub query: String,
    pub entries: Vec<ClientPaletteEntry>,
    /// Places in `entries`, best match first.
    pub filtered: Vec<usize>,
    pub selected: usize,
    /// The list of plugin actions was asked for and has not come.
    pub loading_plugin_actions: bool,
    /// The request that the list was asked for with.
    pub plugin_request: Option<u64>,
}

/// An open palette, with its texts as characters.
pub struct ClientPaletteView {
    pub query: Seq<char>,
    pub entries: Seq<ClientEntryView>,
    pub filtered: Seq<usize>,
    pub selected: usize,
    pub loading: bool,
    pub request: Option<u64>,
}

impl View for ClientCommandPaletteOverlay {
    type V = ClientPaletteView;

    open spec fn view(&self) -> ClientPaletteView {
        ClientPaletteView {
            query: self.query@,
            entries: views(self.entries@),
            filtered: self.filtered@,
            selected: self.selected,
            loading: self.loading_plugin_actions,
            request: self.plugin_request,
        }
    }
}

/// The names of the rows.
pub open spec fn entry_names(entries: Seq<ClientEntryView>) -> Seq<Seq<char>> {
    names_of::<ClientPaletteEntry>(entries)
}

/// The first listed place whose row runs the command of a handle, from `i` on.
pub open spec fn place_of(
    entries: Seq<ClientEntryView>,
    filtered: Seq<usize>,
    handle: ClientHandleView,
    i: int,
) -> Option<int>
    decreases filtered.len() - i,
{
    if i < 0 || i >= filtered.len() {
        None
    } else if entries[filtered[i] as int].handle.same(handle) {
        Some(i)
    } else {
        place_of(entries, filtered, handle, i + 1)
    }
}

impl ClientPaletteView {
    /// The list shows what matches the query, best first.
    pub open spec fn is_filtered(self) -> bool {
        is_ranking(entry_names(self.entries), self.query, self.filtered)
    }

    /// The row that is highlighted.
    pub open spec fn highlighted(self) -> Option<ClientEntryView> {
        if self.selected < self.filtered.len() && self.filtered[self.selected as int]
            < self.entries.len() {
            Some(self.entries[self.filtered[self.selected as int] as int])
        } else {
            None
        }
    }

    /// The palette filtered anew, with the best match selected.
    pub open spec fn refiltered(self) -> ClientPaletteView {
        ClientPaletteView {
            filtered: ranking(entry_names(self.entries), self.query),
            selected: 0,
            ..self
        }
    }

    /// The palette filtered anew, with the row of a command selected where it is
    /// listed.
    pub open spec fn refiltered_on(self, kept: Option<ClientHandleView>) -> ClientPaletteView {
        let filtered = ranking(entry_names(self.entries), self.query);
        ClientPaletteView {
            filtered,
            selected: match kept {
                Some(handle) => match place_of(self.entries, filtered, handle, 0) {
                    Some(i) => i as usize,
                    None => 0,
                },
                None => 0,
            },
            ..self
        }
    }

    /// The palette after plugin actions arrived.
    pub open spec fn with_plugins(self, actions: Seq<PluginActionView>) -> ClientPaletteView {
        let kept = match self.highlighted() {
            Some(entry) => Some(entry.handle),
            None => None,
        };
        (ClientPaletteView {
            entries: normalized(self.entries + plugin_rows(actions)),
            loading: false,
            request: None,
            ..self
        }).refiltered_on(kept)
    }

    /// The palette with another query.
    pub open spec fn with_query(self, query: Seq<char>) -> ClientPaletteView {
        (ClientPaletteView { query, ..self }).refiltered()
    }

    /// The palette after the query was edited.
    pub open spec fn edited(self, edit: QueryEdit) -> ClientPaletteView {
        self.with_query(edited_query(self.query, edit))
    }

    pub open spec fn stepped(self, delta: int) -> ClientPaletteView {
        ClientPaletteView {
            selected: wrapped(self.selected as int, self.filtered.len() as int, delta) as usize,
            ..self
        }
    }

    pub open spec fn jumped(self, delta: int) -> ClientPaletteView {
        ClientPaletteView {
            selected: clamped(self.selected as int, self.filtered.len() as int, delta) as usize,
            ..self
        }
    }

    /// The palette with the first or the last row selected.
    pub open spec fn at_edge(self, last: bool) -> ClientPaletteView {
        ClientPaletteView {
            selected: if last && self.filtered.len() > 0 {
                (self.filtered.len() - 1) as usize
            } else {
                0
            },
            ..self
        }
    }
}

/// One change of the query.
#[derive(Debug)]
pub enum QueryEdit {
    Clear,
    DeleteWord,
    DeleteChar,
    Append(String),
}

/// A text without the word at its end.
pub open spec fn without_word(s: Seq<char>) -> Seq<char>
    decreases s.len(),
{
    if s.len() > 0 && !whitespace(s.last()) {
        without_word(s.drop_last())
    } else {
        s
    }
}

/// The query after a change.
pub open spec fn edited_query(query: Seq<char>, edit: QueryEdit) -> Seq<char> {
    match edit {
        QueryEdit::Clear => Seq::empty(),
        QueryEdit::DeleteWord => without_word(trim_end(query)),
        QueryEdit::DeleteChar => if query.len() == 0 {
            query
        } else {
            query.drop_last()
        },
        QueryEdit::Append(text) => query + text@,
    }
}

/// Remove blank space at the end, and the word before it.
pub fn delete_trailing_word(query: &str) -> (r: String)
    ensures
        r@ == without_word(trim_end(query@)),
{
    let chars = chars_of(query);
    let mut end: usize = chars.len();
    assert(chars@.take(end as int) =~= query@);
    while end > 0 && is_whitespace(chars[end - 1])
        invariant
            end <= chars@.len(),
            trim_end(chars@.take(end as int)) == trim_end(query@),
        decreases end,
    {
        assert(chars@.take(end as int).drop_last() =~= chars@.take(end - 1));
        assert(chars@.take(end as int).last() == chars@[end - 1]);
        end = end - 1;
    }
    assert(end > 0 ==> chars@.take(end as int).last() == chars@[end - 1]);
    assert(chars@.take(end as int) == trim_end(query@));
    while end > 0 && !is_whitespace(chars[end - 1])
        invariant
            end <= chars@.len(),
            without_word(chars@.take(end as int)) == without_word(trim_end(query@)),
        decreases end,
    {
        assert(chars@.take(end as int).drop_last() =~= chars@.take(end - 1));
        assert(chars@.take(end as int).last() == chars@[end - 1]);
        end = end - 1;
    }
    assert(end > 0 ==> chars@.take(end as int).last() == chars@[end - 1]);
    assert(chars@.subrange(0, end as int) =~= chars@.take(end as int));
    string_of(chars.as_slice(), 0, end)
}

fn apply_edit(query: &str, edit: &QueryEdit) -> (r: String)
    ensures
        r@ == edited_query(query@, *edit),
{
    match edit {
        QueryEdit::Clear => {
            let r = String::new();
            assert(r@ =~= Seq::<char>::empty());
            r
        },
        QueryEdit::DeleteWord => delete_trailing_word(query),
        QueryEdit::DeleteChar => {
            let chars = chars_of(query);
            let total: usize = chars.len();
            if total == 0 {
                return owned(query);
            }
            assert(chars@.subrange(0, total - 1) =~= query@.drop_last());
            string_of(chars.as_slice(), 0, total - 1)
        },
        QueryEdit::Append(text) => {
            let mut r = owned(query);
            push_text(&mut r, text.as_str());
            r
        },
    }
}

impl ClientCommandPaletteOverlay {
    /// The highlighted row.
    pub fn selected_entry(&self) -> (r: Option<&ClientPaletteEntry>)
        ensures
            match r {
                Some(entry) => self@.highlighted() == Some(entry@),
                None => self@.highlighted() is None,
            },
    {
        if self.selected >= self.filtered.len() {
            return None;
        }
        let i: usize = self.filtered[self.selected];
        if i >= self.entries.len() {
            return None;
        }
        Some(&self.entries[i])
    }

    /// Filter the rows by the query and select the best match.
    pub fn refilter(&mut self)
        requires
            all_scorable(entry_names(old(self)@.entries), old(self)@.query),
        ensures
            final(self)@ == old(self)@.refiltered(),
            final(self)@.is_filtered(),
    {
        self.filtered = ranked_indices(self.entries.as_slice(), self.query.as_str());
        self.selected = 0;
    }

    /// Filter the rows by the query, and keep the row of a command highlighted:
    /// for a catalog that grew under the user.
    pub fn refilter_preserving_selection(&mut self, kept: Option<ClientPaletteHandle>)
        requires
            all_scorable(entry_names(old(self)@.entries), old(self)@.query),
        ensures
            final(self)@ == old(self)@.refiltered_on(
                match kept {
                    Some(handle) => Some(handle@),
                    None => None,
                },
            ),
            final(self)@.is_filtered(),
    {
        self.filtered = ranked_indices(self.entries.as_slice(), self.query.as_str());
        self.selected = match kept {
            Some(handle) => self.find_listed(&handle),
            None => 0,
        };
    }

    fn find_listed(&self, handle: &ClientPaletteHandle) -> (r: usize)
        requires
            self@.is_filtered(),
        ensures
            r == (match place_of(self@.entries, self@.filtered, handle@, 0) {
                Some(i) => i,
                None => 0,
            }),
    {
        let mut i: usize = 0;
        while i < self.filtered.len()
            invariant
                self@.is_filtered(),
                i <= self.filtered@.len(),
                place_of(self@.entries, self@.filtered, handle@, 0) == place_of(
                    self@.entries,
                    self@.filtered,
                    handle@,
                    i as int,
                ),
            decreases self.filtered@.len() - i,
        {
            let place: usize = self.filtered[i];
            assert(self@.filtered.contains(place));
            assert(self@.entries[place as int] == self.entries@[place as int]@);
            if self.entries[place].handle.runs_same(handle) {
                return i;
            }
            i = i + 1;
        }
        0
    }

    /// Step through the list; it wraps around.
    pub fn move_selection(&mut self, delta: i64)
        ensures
            final(self)@ == old(self)@.stepped(delta as int),
    {
        self.selected = wrap_selection(self.selected, self.filtered.len(), delta);
    }

    /// Jump through the list; it stops at the ends.
    pub fn jump_clamped(&mut self, delta: i64)
        ensures
            final(self)@ == old(self)@.jumped(delta as int),
    {
        self.selected = clamp_selection(self.selected, self.filtered.len(), delta);
    }

    /// Merge plugin actions into the catalog, without moving the highlight.
    pub fn merge_plugin_actions(&mut self, actions: Vec<PluginActionInfo>)
        requires
            all_scorable(
                entry_names(normalized(old(self)@.entries + plugin_rows(views(actions@)))),
                old(self)@.query,
            ),
        ensures
            final(self)@ == old(self)@.with_plugins(views(actions@)),
            final(self)@.is_filtered(),
    {
        let kept = match self.selected_entry() {
            Some(entry) => Some(entry.handle.clone()),
            None => None,
        };
        let mut more = plugin_entries(actions);
        proof {
            lemma_views_add(self.entries@, more@);
        }
        self.entries.append(&mut more);
        normalize_entries(&mut self.entries);
        self.loading_plugin_actions = false;
        self.plugin_request = None;
        self.refilter_preserving_selection(kept);
    }
}

// --- keys -------------------------------------------------------------------------------

/// The shift key.
pub const SHIFT: u8 = 1;

/// The control key.
pub const CONTROL: u8 = 2;

/// The alt key.
pub const ALT: u8 = 4;

/// The super key.
pub const SUPER: u8 = 8;

/// A key that the palette knows.
#[derive(Debug, Clone, Copy, PartialEq, Eq, Structural)]
pub enum KeyCode {
    Esc,
    Enter,
    Up,
    Down,
    PageUp,
    PageDown,
    Home,
    End,
    Backspace,
    Char(char),
    Other,
}

/// A pressed key: its code and the modifiers held, one bit each, and the text
/// that the terminal made of it.
#[derive(Debug)]
pub struct PaletteKey {
    pub code: KeyCode,
    pub modifiers: u8,
    pub generated_text: Option<String>,
}

/// A modifier is held.
pub open spec fn held(modifiers: u8, bit: u8) -> bool {
    modifiers & bit == bit
}

/// What a key does in the palette.
#[derive(Debug)]
pub enum PaletteMove {
    Close,
    Run,
    Step(i64),
    Jump(i64),
    First,
    Last,
    Edit(QueryEdit),
    Ignore,
}

/// What a key does, with its texts as characters.
pub enum PaletteMoveView {
    Close,
    Run,
    Step(int),
    Jump(int),
    First,
    Last,
    Clear,
    DeleteWord,
    DeleteChar,
    Append(Seq<char>),
    Ignore,
}

impl View for PaletteMove {
    type V = PaletteMoveView;

    open spec fn view(&self) -> PaletteMoveView {
        match *self {
            PaletteMove::Close => PaletteMoveView::Close,
            PaletteMove::Run => PaletteMoveView::Run,
            PaletteMove::Step(n) => PaletteMoveView::Step(n as int),
            PaletteMove::Jump(n) => PaletteMoveView::Jump(n as int),
            PaletteMove::First => PaletteMoveView::First,
            PaletteMove::Last => PaletteMoveView::Last,
            PaletteMove::Edit(QueryEdit::Clear) => PaletteMoveView::Clear,
            PaletteMove::Edit(QueryEdit::DeleteWord) => PaletteMoveView::DeleteWord,
            PaletteMove::Edit(QueryEdit::DeleteChar) => PaletteMoveView::DeleteChar,
            PaletteMove::Edit(QueryEdit::Append(text)) => PaletteMoveView::Append(text@),
            PaletteMove::Ignore => PaletteMoveView::Ignore,
        }
    }
}

/// What a key does. Movement claims its chords first, so the query gets what is
/// left: text, and the deletes.
pub open spec fn move_of(code: KeyCode, modifiers: u8, text: Option<Seq<char>>, page: int) -> PaletteMoveView {
    let control = held(modifiers, CONTROL);
    let half = if page / 2 < 1 {
        1
    } else {
        page / 2
    };
    match code {
        KeyCode::Esc => PaletteMoveView::Close,
        KeyCode::Enter => PaletteMoveView::Run,
        KeyCode::Up => PaletteMoveView::Step(-1),
        KeyCode::Down => PaletteMoveView::Step(1),
        KeyCode::PageDown => PaletteMoveView::Jump(page),
        KeyCode::PageUp => PaletteMoveView::Jump(-page),
        KeyCode::Home => PaletteMoveView::First,
        KeyCode::End => PaletteMoveView::Last,
        KeyCode::Backspace => if held(modifiers, SUPER) {
            PaletteMoveView::Clear
        } else if control || held(modifiers, ALT) {
            PaletteMoveView::DeleteWord
        } else {
            PaletteMoveView::DeleteChar
        },
        KeyCode::Char(c) => if control && c == 'p' {
            PaletteMoveView::Step(-1)
        } else if control && c == 'n' {
            PaletteMoveView::Step(1)
        } else if control && c == 'd' {
            PaletteMoveView::Jump(half)
        } else if control && c == 'u' {
            PaletteMoveView::Jump(-half)
        } else if control && (c == 'h' || c == 'w') {
            PaletteMoveView::DeleteWord
        } else if modifiers & !SHIFT == 0 {
            PaletteMoveView::Append(
                match text {
                    Some(made) => made,
                    None => seq![c],
                },
            )
        } else {
            PaletteMoveView::Ignore
        },
        KeyCode::Other => PaletteMoveView::Ignore,
    }
}

/// Decide what a key does, where the list shows `page` rows.
pub fn palette_move(key: &PaletteKey, page: i64) -> (r: PaletteMove)
    requires
        page >= 1,
    ensures
        r@ == move_of(key.code, key.modifiers, opt_text(key.generated_text), page as int),
{
    let control = key.modifiers & CONTROL == CONTROL;
    let half: i64 = if page / 2 < 1 {
        1
    } else {
        page / 2
    };
    match key.code {
        KeyCode::Esc => PaletteMove::Close,
        KeyCode::Enter => PaletteMove::Run,
        KeyCode::Up => PaletteMove::Step(-1),
        KeyCode::Down => PaletteMove::Step(1),
        KeyCode::PageDown => PaletteMove::Jump(page),
        KeyCode::PageUp => PaletteMove::Jump(-page),
        KeyCode::Home => PaletteMove::First,
        KeyCode::End => PaletteMove::Last,
        KeyCode::Backspace => if key.modifiers & SUPER == SUPER {
            PaletteMove::Edit(QueryEdit::Clear)
        } else if control || key.modifiers & ALT == ALT {
            PaletteMove::Edit(QueryEdit::DeleteWord)
        } else {
            PaletteMove::Edit(QueryEdit::DeleteChar)
        },
        KeyCode::Char(c) => if control && c == 'p' {
            PaletteMove::Step(-1)
        } else if control && c == 'n' {
            PaletteMove::Step(1)
        } else if control && c == 'd' {
            PaletteMove::Jump(half)
        } else if control && c == 'u' {
            PaletteMove::Jump(-half)
        } else if control && (c == 'h' || c == 'w') {
            PaletteMove::Edit(QueryEdit::DeleteWord)
        } else if key.modifiers & !SHIFT == 0 {
            match &key.generated_text {
                Some(text) => PaletteMove::Edit(QueryEdit::Append(text.clone())),
                None => {
                    let mut text = String::new();
                    text.push(c);
                    assert(text@ =~= seq![c]);
                    PaletteMove::Edit(QueryEdit::Append(text))
                },
            }
        } else {
            PaletteMove::Ignore
        },
        KeyCode::Other => PaletteMove::Ignore,
    }
}

// --- the shell --------------------------------------------------------------------------

/// What the endpoint answered to the request for plugin actions.
#[derive(Debug)]
pub enum EndpointReply {
    PluginActionList(Vec<PluginActionInfo>),
    /// Something else.
    Other,
}

/// The error shown when the endpoint answered something else.
pub open spec fn unexpected_reply() -> Seq<char> {
    "endpoint returned an unexpected plugin action list result"@
}

impl ShellView {
    /// The open palette.
    pub open spec fn palette(self) -> Option<ClientPaletteView> {
        match self.overlay {
            Some(OverlayView::CommandPalette(palette)) => Some(palette),
            _ => None,
        }
    }

    /// The shell with its palette changed; unchanged where none is open.
    pub open spec fn on_palette(self, change: spec_fn(ClientPaletteView) -> ClientPaletteView) -> ShellView {
        match self.overlay {
            Some(OverlayView::CommandPalette(palette)) => ShellView {
                overlay: Some(OverlayView::CommandPalette(change(palette))),
                ..self
            },
            _ => self,
        }
    }

    /// The rows that a fresh palette lists.
    pub open spec fn fresh_entries(self, custom: Seq<CustomCommandView>) -> Seq<ClientEntryView> {
        normalized(
            (if self.sources.built_in {
                builtin_catalog(self.keybinds)
            } else {
                Seq::empty()
            }) + (if self.sources.custom {
                custom_rows(custom)
            } else {
                Seq::empty()
            }),
        )
    }

    /// Opening a palette asks for plugin actions: the source is on, and the
    /// endpoint can be reached.
    pub open spec fn asks_for_plugins(self) -> bool {
        self.sources.plugin && self.has_snapshot
    }

    /// The palette that opens.
    pub open spec fn fresh_palette(self) -> ClientPaletteView {
        (ClientPaletteView {
            query: Seq::empty(),
            entries: self.fresh_entries(views(self.keybinds.custom_commands@)),
            filtered: Seq::empty(),
            selected: 0,
            loading: self.asks_for_plugins(),
            request: if self.asks_for_plugins() {
                Some(self.next_request)
            } else {
                None
            },
        }).refiltered()
    }

    /// The shell with a fresh palette open.
    pub open spec fn opened(self) -> ShellView {
        ShellView {
            overlay: Some(OverlayView::CommandPalette(self.fresh_palette())),
            chrome_drag: false,
            next_request: if self.asks_for_plugins() {
                next_id(self.next_request)
            } else {
                self.next_request
            },
            ..self
        }
    }

    /// What running the highlighted row asks for.
    pub open spec fn run_action(self) -> Option<ActionView> {
        match self.palette() {
            Some(palette) => match palette.highlighted() {
                Some(entry) => match entry.handle {
                    ClientHandleView::Action(action) => Some(ActionView::RunAction(action)),
                    ClientHandleView::Command(command) => Some(ActionView::RunCommand(command)),
                    ClientHandleView::PluginAction { plugin_id, action_id } => if self.has_snapshot {
                        Some(
                            ActionView::InvokePluginAction {
                                id: self.next_request,
                                plugin_id,
                                action_id,
                            },
                        )
                    } else {
                        None
                    },
                },
                None => None,
            },
            None => None,
        }
    }

    /// A row is highlighted.
    pub open spec fn can_run(self) -> bool {
        self.palette() matches Some(palette) && palette.highlighted() is Some
    }

    /// The shell after the highlighted row was run: the palette is closed first,
    /// so that what the row opens stays open.
    pub open spec fn after_run(self) -> ShellView {
        if self.can_run() {
            ShellView {
                overlay: None,
                next_request: if self.run_action() is Some
                    && self.run_action()->0 is InvokePluginAction {
                    next_id(self.next_request)
                } else {
                    self.next_request
                },
                ..self
            }
        } else {
            self
        }
    }

    /// Rows that the list showed last, for jumps by a page.
    pub open spec fn page(self) -> int {
        if self.list_height < 1 {
            1
        } else if self.list_height > i64::MAX {
            i64::MAX as int
        } else {
            self.list_height as int
        }
    }

    /// The shell after the endpoint answered the palette's request.
    pub open spec fn after_reply(self, reply: Result<EndpointReply, String>) -> ShellView {
        match self.overlay {
            Some(OverlayView::CommandPalette(palette)) => match reply {
                Ok(EndpointReply::PluginActionList(actions)) => ShellView {
                    overlay: Some(
                        OverlayView::CommandPalette(palette.with_plugins(views(actions@))),
                    ),
                    ..self
                },
                Ok(EndpointReply::Other) => ShellView {
                    overlay: Some(OverlayView::CommandPalette(palette.settled())),
                    endpoint_error: Some(unexpected_reply()),
                    ..self
                },
                Err(message) => ShellView {
                    overlay: Some(OverlayView::CommandPalette(palette.settled())),
                    endpoint_error: Some(message@),
                    ..self
                },
            },
            _ => self,
        }
    }

    /// A reply to request `id` is the open palette's own.
    pub open spec fn awaits(self, id: u64) -> bool {
        self.palette() matches Some(palette) && palette.request == Some(id)
    }
}

impl ClientPaletteView {
    /// The palette with nothing pending.
    pub open spec fn settled(self) -> ClientPaletteView {
        ClientPaletteView { loading: false, request: None, ..self }
    }
}

/// The id after another.
pub open spec fn next_id(id: u64) -> u64 {
    if id == u64::MAX {
        0
    } else {
        (id + 1) as u64
    }
}

/// The rows can be scored against the query after an edit.
pub open spec fn edit_is_scorable(shell: ShellView, edit: QueryEdit) -> bool {
    shell.palette() matches Some(palette) ==> all_scorable(
        entry_names(palette.entries),
        edited_query(palette.query, edit),
    )
}

impl ClientShellState {
    /// Assemble the catalog from the sources that are on and open the palette.
    /// Plugin actions are asked for, and merged when they arrive; without a
    /// snapshot nothing can be asked for, so nothing is waited for.
    pub fn open_command_palette(&mut self, outcome: &mut ClientShellInput)
        ensures
            final(self)@ == old(self)@.opened(),
            final(self)@.palette() matches Some(palette) && palette.is_filtered(),
            final(self).config == old(self).config,
            final(self).snapshot == old(self).snapshot,
            final(self).hits == old(self).hits,
            final(outcome)@ == (InputView {
                actions: if old(self)@.asks_for_plugins() {
                    old(outcome)@.actions.push(
                        ActionView::ListPluginActions { id: old(self)@.next_request },
                    )
                } else {
                    old(outcome)@.actions
                },
                ..old(outcome)@
            }),
    {
        let sources = self.config.command_palette_sources;
        let mut entries: Vec<ClientPaletteEntry> = Vec::new();
        proof {
            lemma_views_empty::<ClientPaletteEntry>();
        }
        if sources.built_in {
            entries = builtin_entries(&self.config.keybinds);
        }
        let ghost first = views(entries@);
        if sources.custom {
            let mut more = custom_entries(self.config.keybinds.custom_commands.as_slice());
            proof {
                lemma_views_add(entries@, more@);
            }
            entries.append(&mut more);
        }
        assert(views(entries@) =~= first + (if sources.custom {
            custom_rows(views(self.config.keybinds.custom_commands@))
        } else {
            Seq::empty()
        }));
        normalize_entries(&mut entries);
        let asks = sources.plugin && self.snapshot.is_some();
        let id: u64 = self.next_request;
        let mut palette = ClientCommandPaletteOverlay {
            query: String::new(),
            entries,
            filtered: Vec::new(),
            selected: 0,
            loading_plugin_actions: asks,
            plugin_request: if asks {
                Some(id)
            } else {
                None
            },
        };
        proof {
            assert(palette.query@ =~= Seq::<char>::empty());
            assert(palette.filtered@ =~= Seq::<usize>::empty());
            assert forall|i: int| 0 <= i < entry_names(palette@.entries).len() implies scorable(
                palette@.query,
                #[trigger] entry_names(palette@.entries)[i],
            ) by {
                law_empty_query_matches_all(entry_names(palette@.entries)[i]);
            }
        }
        palette.refilter();
        self.overlay = Some(ClientShellOverlay::CommandPalette(palette));
        self.chrome_drag = false;
        if asks {
            self.next_request = id.wrapping_add(1);
            let action = ClientShellAction::Endpoint {
                id,
                method: EndpointMethod::PluginActionList,
            };
            proof {
                lemma_views_push(outcome.actions@, action);
            }
            outcome.actions.push(action);
        }
    }

    /// Change the query and filter anew. Returns whether a palette is open.
    pub fn edit_command_palette_query(&mut self, edit: QueryEdit) -> (r: bool)
        requires
            edit_is_scorable(old(self)@, edit),
        ensures
            final(self)@ == old(self)@.on_palette(|p: ClientPaletteView| p.edited(edit)),
            final(self).config == old(self).config,
            final(self).snapshot == old(self).snapshot,
            final(self).hits == old(self).hits,
            r == (old(self)@.palette() is Some),
    {
        match self.overlay.take() {
            Some(ClientShellOverlay::CommandPalette(mut palette)) => {
                palette.query = apply_edit(palette.query.as_str(), &edit);
                palette.refilter();
                self.overlay = Some(ClientShellOverlay::CommandPalette(palette));
                true
            },
            other => {
                self.overlay = other;
                false
            },
        }
    }

    pub fn move_command_palette_selection(&mut self, delta: i64)
        ensures
            final(self)@ == old(self)@.on_palette(
                |p: ClientPaletteView| p.stepped(delta as int),
            ),
            final(self).config == old(self).config,
            final(self).snapshot == old(self).snapshot,
            final(self).hits == old(self).hits,
    {
        match self.overlay.take() {
            Some(ClientShellOverlay::CommandPalette(mut palette)) => {
                palette.move_selection(delta);
                self.overlay = Some(ClientShellOverlay::CommandPalette(palette));
            },
            other => {
                self.overlay = other;
            },
        }
    }

    pub fn jump_command_palette_selection(&mut self, delta: i64)
        ensures
            final(self)@ == old(self)@.on_palette(|p: ClientPaletteView| p.jumped(delta as int)),
            final(self).config == old(self).config,
            final(self).snapshot == old(self).snapshot,
            final(self).hits == old(self).hits,
    {
        match self.overlay.take() {
            Some(ClientShellOverlay::CommandPalette(mut palette)) => {
                palette.jump_clamped(delta);
                self.overlay = Some(ClientShellOverlay::CommandPalette(palette));
            },
            other => {
                self.overlay = other;
            },
        }
    }

    /// Jump to the last row or the first; an empty list stays at the start.
    pub fn select_command_palette_edge(&mut self, last: bool)
        ensures
            final(self)@ == old(self)@.on_palette(|p: ClientPaletteView| p.at_edge(last)),
            final(self).config == old(self).config,
            final(self).snapshot == old(self).snapshot,
            final(self).hits == old(self).hits,
    {
        match self.overlay.take() {
            Some(ClientShellOverlay::CommandPalette(mut palette)) => {
                let total: usize = palette.filtered.len();
                palette.selected = if last && total > 0 {
                    total - 1
                } else {
                    0
                };
                self.overlay = Some(ClientShellOverlay::CommandPalette(palette));
            },
            other => {
                self.overlay = other;
            },
        }
    }

    /// Select a listed row; any other place is ignored.
    pub fn select_command_palette_row(&mut self, row: usize)
        ensures
            final(self)@ == old(self)@.at_row(row),
            final(self).config == old(self).config,
            final(self).snapshot == old(self).snapshot,
            final(self).hits == old(self).hits,
    {
        match self.overlay.take() {
            Some(ClientShellOverlay::CommandPalette(mut palette)) => {
                if row < palette.filtered.len() {
                    palette.selected = row;
                }
                self.overlay = Some(ClientShellOverlay::CommandPalette(palette));
            },
            other => {
                self.overlay = other;
            },
        }
    }

    /// Rows that the list showed last, for jumps by a page.
    pub fn command_palette_page(&self) -> (r: i64)
        ensures
            r == self@.page(),
            r >= 1,
    {
        let height: usize = self.hits.command_palette_list_height;
        if height < 1 {
            1
        } else if height as u64 > i64::MAX as u64 {
            i64::MAX
        } else {
            height as i64
        }
    }

    /// Run the highlighted row: do what its chord would do, or invoke its plugin
    /// action. Where nothing is highlighted the palette stays open.
    pub fn dispatch_command_palette_entry(&mut self, outcome: &mut ClientShellInput)
        ensures
            final(self)@ == old(self)@.after_run(),
            final(self).config == old(self).config,
            final(self).snapshot == old(self).snapshot,
            final(self).hits == old(self).hits,
            final(outcome)@ == (InputView {
                actions: match old(self)@.run_action() {
                    Some(action) => old(outcome)@.actions.push(action),
                    None => old(outcome)@.actions,
                },
                repaint: old(outcome)@.repaint || old(self)@.can_run(),
            }),
    {
        let handle = match &self.overlay {
            Some(ClientShellOverlay::CommandPalette(palette)) => match palette.selected_entry() {
                Some(entry) => entry.handle.clone(),
                None => {
                    return;
                },
            },
            _ => {
                return;
            },
        };
        self.overlay = None;
        outcome.repaint = true;
        let action = match handle {
            ClientPaletteHandle::Action(action) => ClientShellAction::Binding(
                KeybindMatch::Action(action),
            ),
            ClientPaletteHandle::Command(command) => ClientShellAction::Binding(
                KeybindMatch::Command(command),
            ),
            ClientPaletteHandle::PluginAction { plugin_id, action_id } => {
                if self.snapshot.is_none() {
                    return;
                }
                let id: u64 = self.next_request;
                self.next_request = id.wrapping_add(1);
                ClientShellAction::Endpoint {
                    id,
                    method: EndpointMethod::PluginActionInvoke { plugin_id, action_id },
                }
            },
        };
        proof {
            lemma_views_push(outcome.actions@, action);
        }
        outcome.actions.push(action);
    }
}

/// The row under a cell: that of the first rectangle that covers it.
pub open spec fn row_under(rows: Seq<(Rect, usize)>, x: u16, y: u16) -> Option<usize>
    decreases rows.len(),
{
    if rows.len() == 0 {
        None
    } else if covers(rows[0].0, x, y) {
        Some(rows[0].1)
    } else {
        row_under(rows.skip(1), x, y)
    }
}

impl ShellView {
    /// The shell with a listed row highlighted; any other place is ignored.
    pub open spec fn at_row(self, row: usize) -> ShellView {
        self.on_palette(
            |p: ClientPaletteView|
                if row < p.filtered.len() {
                    ClientPaletteView { selected: row, ..p }
                } else {
                    p
                },
        )
    }

    /// The shell after a click, where `rows` and `popup` say what the last frame
    /// drew: a row runs, and a click outside the box closes the palette.
    pub open spec fn after_click(
        self,
        rows: Seq<(Rect, usize)>,
        popup: Rect,
        x: u16,
        y: u16,
    ) -> ShellView {
        match (self.palette(), row_under(rows, x, y)) {
            (Some(_), Some(row)) => self.at_row(row).after_run(),
            (Some(_), None) => if covers(popup, x, y) {
                self
            } else {
                ShellView { overlay: None, ..self }
            },
            (None, _) => self,
        }
    }

    /// What a click leads to.
    pub open spec fn input_after_click(
        self,
        rows: Seq<(Rect, usize)>,
        popup: Rect,
        x: u16,
        y: u16,
        before: InputView,
    ) -> InputView {
        match (self.palette(), row_under(rows, x, y)) {
            (Some(_), Some(row)) => self.at_row(row).input_after_move(PaletteMoveView::Run, before),
            (Some(_), None) => InputView {
                repaint: before.repaint || !covers(popup, x, y),
                ..before
            },
            (None, _) => before,
        }
    }
}

fn is_over(area: Rect, x: u16, y: u16) -> (r: bool)
    ensures
        r == covers(area, x, y),
{
    area.x <= x && x < area.right() && area.y <= y && y < area.bottom()
}

fn find_row(rows: &[(Rect, usize)], x: u16, y: u16) -> (r: Option<usize>)
    ensures
        r == row_under(rows@, x, y),
{
    let mut i: usize = 0;
    assert(rows@.skip(0) =~= rows@);
    while i < rows.len()
        invariant
            i <= rows@.len(),
            row_under(rows@, x, y) == row_under(rows@.skip(i as int), x, y),
        decreases rows@.len() - i,
    {
        assert(rows@.skip(i as int).skip(1) =~= rows@.skip(i as int + 1));
        if is_over(rows[i].0, x, y) {
            return Some(rows[i].1);
        }
        i = i + 1;
    }
    None
}

impl ClientShellState {
    /// Handle a click while the palette is open: a row of the last frame runs,
    /// and a click outside the box closes the palette.
    pub fn click_command_palette(&mut self, x: u16, y: u16, outcome: &mut ClientShellInput)
        ensures
            final(self)@ == old(self)@.after_click(
                old(self).hits.command_palette_rows@,
                old(self).hits.command_palette_popup,
                x,
                y,
            ),
            final(self).config == old(self).config,
            final(self).snapshot == old(self).snapshot,
            final(self).hits == old(self).hits,
            final(outcome)@ == old(self)@.input_after_click(
                old(self).hits.command_palette_rows@,
                old(self).hits.command_palette_popup,
                x,
                y,
                old(outcome)@,
            ),
    {
        match &self.overlay {
            Some(ClientShellOverlay::CommandPalette(_)) => {},
            _ => {
                return;
            },
        }
        match find_row(self.hits.command_palette_rows.as_slice(), x, y) {
            Some(row) => {
                self.select_command_palette_row(row);
                self.dispatch_command_palette_entry(outcome);
            },
            None => {
                if !is_over(self.hits.command_palette_popup, x, y) {
                    self.overlay = None;
                    outcome.repaint = true;
                }
            },
        }
    }
}

/// The query that a move leaves, where it changes the query.
pub open spec fn query_after(query: Seq<char>, step: PaletteMoveView) -> Option<Seq<char>> {
    match step {
        PaletteMoveView::Clear => Some(Seq::empty()),
        PaletteMoveView::DeleteWord => Some(without_word(trim_end(query))),
        PaletteMoveView::DeleteChar => Some(
            if query.len() == 0 {
                query
            } else {
                query.drop_last()
            },
        ),
        PaletteMoveView::Append(text) => Some(query + text),
        _ => None,
    }
}

impl ShellView {
    /// The shell after a key of the palette.
    pub open spec fn after_move(self, step: PaletteMoveView) -> ShellView {
        match step {
            PaletteMoveView::Close => ShellView { overlay: None, ..self },
            PaletteMoveView::Run => self.after_run(),
            PaletteMoveView::Step(n) => self.on_palette(|p: ClientPaletteView| p.stepped(n)),
            PaletteMoveView::Jump(n) => self.on_palette(|p: ClientPaletteView| p.jumped(n)),
            PaletteMoveView::First => self.on_palette(|p: ClientPaletteView| p.at_edge(false)),
            PaletteMoveView::Last => self.on_palette(|p: ClientPaletteView| p.at_edge(true)),
            PaletteMoveView::Ignore => self,
            _ => self.on_palette(
                |p: ClientPaletteView| p.with_query(query_after(p.query, step)->0),
            ),
        }
    }

    /// What a key of the palette leads to.
    pub open spec fn input_after_move(self, step: PaletteMoveView, before: InputView) -> InputView {
        match step {
            PaletteMoveView::Ignore => before,
            PaletteMoveView::Run => InputView {
                actions: match self.run_action() {
                    Some(action) => before.actions.push(action),
                    None => before.actions,
                },
                repaint: before.repaint || self.can_run(),
            },
            _ => InputView { repaint: true, ..before },
        }
    }

    /// What a key does here.
    pub open spec fn move_for(self, key: PaletteKey) -> PaletteMoveView {
        move_of(key.code, key.modifiers, opt_text(key.generated_text), self.page())
    }

    /// The rows can be scored against the query that a move leaves.
    pub open spec fn move_is_scorable(self, step: PaletteMoveView) -> bool {
        self.palette() matches Some(palette) ==> (query_after(palette.query, step) matches Some(
            query,
        ) ==> all_scorable(entry_names(palette.entries), query))
    }
}

impl ClientShellState {
    /// Handle a key while the palette is open.
    pub fn route_command_palette_key(&mut self, key: &PaletteKey, outcome: &mut ClientShellInput)
        requires
            old(self)@.move_is_scorable(old(self)@.move_for(*key)),
        ensures
            final(self)@ == old(self)@.after_move(old(self)@.move_for(*key)),
            final(self).config == old(self).config,
            final(self).snapshot == old(self).snapshot,
            final(self).hits == old(self).hits,
            final(outcome)@ == old(self)@.input_after_move(
                old(self)@.move_for(*key),
                old(outcome)@,
            ),
    {
        let page: i64 = self.command_palette_page();
        let step = palette_move(key, page);
        let ghost start = self@;
        let ghost view = step@;
        match step {
            PaletteMove::Close => {
                self.overlay = None;
            },
            PaletteMove::Run => {
                self.dispatch_command_palette_entry(outcome);
                return;
            },
            PaletteMove::Step(n) => self.move_command_palette_selection(n),
            PaletteMove::Jump(n) => self.jump_command_palette_selection(n),
            PaletteMove::First => self.select_command_palette_edge(false),
            PaletteMove::Last => self.select_command_palette_edge(true),
            PaletteMove::Edit(edit) => {
                proof {
                    if start.palette() is Some {
                        let palette = start.palette()->0;
                        assert(query_after(palette.query, view) == Some(
                            edited_query(palette.query, edit),
                        ));
                    }
                }
                self.edit_command_palette_query(edit);
            },
            PaletteMove::Ignore => {
                return;
            },
        }
        outcome.repaint = true;
    }

    /// Take the endpoint's answer to the palette's request. A palette that is
    /// closed takes nothing. Returns whether the screen changed.
    pub fn handle_command_palette_endpoint_result(
        &mut self,
        result: Result<EndpointReply, String>,
    ) -> (r: bool)
        requires
            old(self)@.reply_is_scorable(result),
        ensures
            final(self)@ == old(self)@.after_reply(result),
            final(self).config == old(self).config,
            final(self).snapshot == old(self).snapshot,
            final(self).hits == old(self).hits,
            r == (old(self)@.palette() is Some),
    {
        match self.overlay.take() {
            Some(ClientShellOverlay::CommandPalette(mut palette)) => {
                match result {
                    Ok(EndpointReply::PluginActionList(actions)) => {
                        palette.merge_plugin_actions(actions);
                    },
                    Ok(EndpointReply::Other) => {
                        palette.loading_plugin_actions = false;
                        palette.plugin_request = None;
                        self.endpoint_error = Some(
                            owned("endpoint returned an unexpected plugin action list result"),
                        );
                    },
                    Err(message) => {
                        palette.loading_plugin_actions = false;
                        palette.plugin_request = None;
                        self.endpoint_error = Some(message);
                    },
                }
                self.overlay = Some(ClientShellOverlay::CommandPalette(palette));
                true
            },
            other => {
                self.overlay = other;
                false
            },
        }
    }

    /// Take the endpoint's answer to request `id`, where the open palette waits
    /// for it. The answer to the request of an earlier palette changes nothing.
    pub fn handle_endpoint_result(&mut self, id: u64, result: Result<EndpointReply, String>) -> (r:
        bool)
        requires
            old(self)@.awaits(id) ==> old(self)@.reply_is_scorable(result),
        ensures
            r == old(self)@.awaits(id),
            final(self).config == old(self).config,
            final(self).snapshot == old(self).snapshot,
            final(self).hits == old(self).hits,
            old(self)@.awaits(id) ==> final(self)@ == old(self)@.after_reply(result),
            !old(self)@.awaits(id) ==> final(self)@ == old(self)@,
    {
        let own = match &self.overlay {
            Some(ClientShellOverlay::CommandPalette(palette)) => match palette.plugin_request {
                Some(request) => request == id,
                None => false,
            },
            _ => false,
        };
        if !own {
            return false;
        }
        self.handle_command_palette_endpoint_result(result)
    }
}

impl ShellView {
    /// The rows can be scored against the query once an answer has come.
    pub open spec fn reply_is_scorable(self, reply: Result<EndpointReply, String>) -> bool {
        self.palette() matches Some(palette) ==> (reply matches Ok(
            EndpointReply::PluginActionList(actions),
        ) ==> all_scorable(
            entry_names(normalized(palette.entries + plugin_rows(views(actions@)))),
            palette.query,
        ))
    }
}

impl ClientShellState {
    /// Whether the rows can be scored against the query that an edit leaves.
    pub fn can_edit_query(&self, edit: &QueryEdit) -> (r: bool)
        ensures
            r == edit_is_scorable(self@, *edit),
    {
        match &self.overlay {
            Some(ClientShellOverlay::CommandPalette(palette)) => {
                let query = apply_edit(palette.query.as_str(), edit);
                can_rank(palette.entries.as_slice(), query.as_str())
            },
            _ => true,
        }
    }

    /// Whether the rows can be scored against the query that a key leaves.
    pub fn can_route_key(&self, key: &PaletteKey) -> (r: bool)
        ensures
            r == self@.move_is_scorable(self@.move_for(*key)),
    {
        let step = palette_move(key, self.command_palette_page());
        match &step {
            PaletteMove::Edit(edit) => {
                proof {
                    if self@.palette() is Some {
                        let palette = self@.palette()->0;
                        assert(query_after(palette.query, step@) == Some(
                            edited_query(palette.query, *edit),
                        ));
                    }
                }
                self.can_edit_query(edit)
            },
            _ => true,
        }
    }

    /// Whether the rows can be scored once the answer to request `id` is taken.
    pub fn can_take_reply(&self, id: u64, result: &Result<EndpointReply, String>) -> (r: bool)
        ensures
            r == (self@.awaits(id) ==> self@.reply_is_scorable(*result)),
    {
        match &self.overlay {
            Some(ClientShellOverlay::CommandPalette(palette)) => {
                let own = match palette.plugin_request {
                    Some(request) => request == id,
                    None => false,
                };
                match result {
                    Ok(EndpointReply::PluginActionList(actions)) if own => {
                        let mut merged = copy_entries(palette.entries.as_slice());
                        let mut more = make_plugin_rows(actions.as_slice());
                        proof {
                            lemma_views_add(merged@, more@);
                        }
                        merged.append(&mut more);
                        normalize_entries(&mut merged);
                        can_rank(merged.as_slice(), palette.query.as_str())
                    },
                    _ => true,
                }
            },
            _ => true,
        }
    }
}

// --- laws -------------------------------------------------------------------------------

/// A row of the catalog of built-ins: it runs an action that the palette lists
/// under the row's name, and its chord is that action's.
pub open spec fn is_builtin_row(keybinds: Keybinds, row: ClientEntryView) -> bool {
    row.handle matches ClientHandleView::Action(action) && entry_text(action) is Some && row
        == builtin_row(keybinds, action, entry_text(action)->0)
}

proof fn lemma_rows_are_builtin(keybinds: Keybinds, actions: Seq<KeybindAction>)
    ensures
        forall|x: ClientEntryView| #[trigger]
            rows_of(keybinds, actions).contains(x) ==> is_builtin_row(keybinds, x),
        forall|a: KeybindAction|
            #![trigger actions.contains(a)]
            actions.contains(a) && row_of(keybinds, a) is Some ==> rows_of(
                keybinds,
                actions,
            ).contains(row_of(keybinds, a)->0),
    decreases actions.len(),
{
    if actions.len() > 0 {
        let front = actions.drop_last();
        let last = actions.last();
        lemma_rows_are_builtin(keybinds, front);
        assert(front.push(last) =~= actions);
        let before = rows_of(keybinds, front);
        let rows = rows_of(keybinds, actions);
        match row_of(keybinds, last) {
            Some(row) => {
                law_catalog_covers_every_action(last);
                assert(is_builtin_row(keybinds, row));
                assert forall|x: ClientEntryView| #[trigger] rows.contains(x) implies
                    is_builtin_row(keybinds, x) by {
                    lemma_contains_push(before, row, x);
                }
                assert forall|a: KeybindAction|
                    #![trigger actions.contains(a)]
                    actions.contains(a) && row_of(keybinds, a) is Some implies rows.contains(
                    row_of(keybinds, a)->0,
                ) by {
                    lemma_contains_push(front, last, a);
                    lemma_contains_push(before, row, row_of(keybinds, a)->0);
                }
            },
            None => {
                assert forall|a: KeybindAction|
                    #![trigger actions.contains(a)]
                    actions.contains(a) && row_of(keybinds, a) is Some implies rows.contains(
                    row_of(keybinds, a)->0,
                ) by {
                    lemma_contains_push(front, last, a);
                }
            },
        }
    }
}

/// The catalog lists built-ins in strict name order, and every row runs an
/// action without an index; so neither the palette itself nor a fixed index is
/// ever offered.
pub proof fn law_catalog_is_sound(keybinds: Keybinds)
    ensures
        in_strict_name_order::<ClientPaletteEntry>(builtin_catalog(keybinds)),
        forall|x: ClientEntryView| #[trigger]
            builtin_catalog(keybinds).contains(x) ==> is_builtin_row(keybinds, x),
{
    let rows = rows_of(keybinds, all_actions());
    lemma_rows_are_builtin(keybinds, all_actions());
    law_sorting_orders_the_rows::<ClientPaletteEntry>(rows);
    law_one_row_for_each_name::<ClientPaletteEntry>(by_name::<ClientPaletteEntry>(rows));
}

/// Every action that the palette lists has a row under its name.
pub proof fn law_catalog_is_complete(keybinds: Keybinds, action: KeybindAction)
    requires
        entry_text(action) is Some,
    ensures
        entry_names(builtin_catalog(keybinds)).contains((entry_text(action)->0).0),
{
    let rows = rows_of(keybinds, all_actions());
    lemma_rows_are_builtin(keybinds, all_actions());
    law_catalog_covers_every_action(action);
    law_sorting_orders_the_rows::<ClientPaletteEntry>(rows);
    law_one_row_for_each_name::<ClientPaletteEntry>(by_name::<ClientPaletteEntry>(rows));
    assert(all_actions().contains(action));
    let row = row_of(keybinds, action)->0;
    assert(rows.contains(row));
    assert(by_name::<ClientPaletteEntry>(rows).contains(row));
}

impl ClientPaletteView {
    /// What always holds of an open palette: its rows are in name order, no
    /// command is listed twice, the list shows what matches, and the selection
    /// is on the list.
    pub open spec fn sound(self) -> bool {
        &&& self.entries.len() <= usize::MAX
        &&& in_name_order::<ClientPaletteEntry>(self.entries)
        &&& distinct_commands::<ClientPaletteEntry>(self.entries)
        &&& self.is_filtered()
        &&& self.selected < self.filtered.len() || self.selected == 0
    }
}

proof fn lemma_normalized(entries: Seq<ClientEntryView>)
    ensures
        in_name_order::<ClientPaletteEntry>(normalized(entries)),
        distinct_commands::<ClientPaletteEntry>(normalized(entries)),
        normalized(entries).len() <= entries.len(),
{
    let once = first_of_each::<ClientPaletteEntry>(entries);
    law_each_command_is_listed_once::<ClientPaletteEntry>(entries);
    law_sorting_orders_the_rows::<ClientPaletteEntry>(once);
    law_sorting_keeps_commands_distinct::<ClientPaletteEntry>(once);
    law_duplicates_only_go::<ClientPaletteEntry>(entries);
}

/// A palette opens sound.
pub proof fn law_fresh_palette_is_sound(shell: ShellView)
    requires
        builtin_catalog(shell.keybinds).len() + shell.keybinds.custom_commands@.len() <= usize::MAX,
    ensures
        shell.fresh_palette().sound(),
        shell.fresh_palette().query == Seq::<char>::empty(),
        shell.fresh_palette().selected == 0,
{
    let custom = views(shell.keybinds.custom_commands@);
    let all = (if shell.sources.built_in {
        builtin_catalog(shell.keybinds)
    } else {
        Seq::empty()
    }) + (if shell.sources.custom {
        custom_rows(custom)
    } else {
        Seq::empty()
    });
    lemma_normalized(all);
    let entries = shell.fresh_entries(custom);
    assert(entry_names(entries).len() == entries.len());
    law_ranking_exists(entry_names(entries), Seq::<char>::empty());
}

/// Every key keeps a palette sound, and an edit of the query selects the best
/// match.
pub proof fn law_keys_keep_the_palette_sound(
    palette: ClientPaletteView,
    query: Seq<char>,
    delta: int,
    last: bool,
)
    requires
        palette.sound(),
    ensures
        palette.with_query(query).sound(),
        palette.with_query(query).selected == 0,
        palette.stepped(delta).sound(),
        palette.jumped(delta).sound(),
        palette.at_edge(last).sound(),
{
    assert(entry_names(palette.entries).len() == palette.entries.len());
    law_ranking_exists(entry_names(palette.entries), query);
    let len = palette.filtered.len() as int;
    law_ranked_rows_are_rows(entry_names(palette.entries), palette.query, palette.filtered);
    if len > 0 {
        lemma_mod_bound(palette.selected + delta, len);
    }
}

/// A palette stays sound when plugin actions arrive.
pub proof fn law_merge_keeps_the_palette_sound(
    palette: ClientPaletteView,
    actions: Seq<PluginActionView>,
)
    requires
        palette.sound(),
        palette.entries.len() + actions.len() <= usize::MAX,
    ensures
        palette.with_plugins(actions).sound(),
        !palette.with_plugins(actions).loading,
{
    let all = palette.entries + plugin_rows(actions);
    lemma_normalized(all);
    let entries = normalized(all);
    assert(entry_names(entries).len() == entries.len());
    law_ranking_exists(entry_names(entries), palette.query);
    let filtered = ranking(entry_names(entries), palette.query);
    law_ranked_rows_are_rows(entry_names(entries), palette.query, filtered);
    match palette.highlighted() {
        Some(entry) => {
            lemma_place_bound(entries, filtered, entry.handle, 0);
        },
        None => {},
    }
}

proof fn lemma_place_bound(
    entries: Seq<ClientEntryView>,
    filtered: Seq<usize>,
    handle: ClientHandleView,
    i: int,
)
    requires
        0 <= i,
    ensures
        place_of(entries, filtered, handle, i) matches Some(k) ==> i <= k < filtered.len()
            && entries[filtered[k] as int].handle.same(handle),
        place_of(entries, filtered, handle, i) is None ==> forall|k: int|
            i <= k < filtered.len() ==> !entries[#[trigger] filtered[k] as int].handle.same(
                handle,
            ),
    decreases filtered.len() - i,
{
    if i < filtered.len() && !entries[filtered[i] as int].handle.same(handle) {
        lemma_place_bound(entries, filtered, handle, i + 1);
    }
}

/// Plugin actions that arrive late never move the highlight: the same row is
/// highlighted before and after.
pub proof fn law_merge_keeps_the_highlight(
    palette: ClientPaletteView,
    actions: Seq<PluginActionView>,
)
    requires
        palette.sound(),
        palette.highlighted() is Some,
        palette.entries.len() + actions.len() <= usize::MAX,
    ensures
        palette.with_plugins(actions).highlighted() == palette.highlighted(),
{
    let row = palette.highlighted()->0;
    let at = palette.filtered[palette.selected as int];
    assert(palette.filtered.contains(at));
    assert(entry_names(palette.entries)[at as int] == row.name);
    assert(score(palette.query, row.name) is Some);
    let more = plugin_rows(actions);
    let all = palette.entries + more;
    let once = first_of_each::<ClientPaletteEntry>(all);
    law_earlier_rows_are_kept::<ClientPaletteEntry>(palette.entries, more);
    assert(once[at as int] == once.take(palette.entries.len() as int)[at as int]);
    assert(once.contains(row));
    law_sorting_orders_the_rows::<ClientPaletteEntry>(once);
    lemma_normalized(all);
    let entries = normalized(all);
    assert(entries.contains(row));
    let j = choose|j: int| 0 <= j < entries.len() && entries[j] == row;
    assert(entry_names(entries).len() == entries.len());
    law_ranking_exists(entry_names(entries), palette.query);
    let filtered = ranking(entry_names(entries), palette.query);
    law_ranked_rows_are_rows(entry_names(entries), palette.query, filtered);
    let place = j as usize;
    assert(entry_names(entries)[j] == row.name);
    assert(filtered.contains(place));
    let k = choose|k: int| 0 <= k < filtered.len() && filtered[k] == place;
    assert(entries[filtered[k] as int].handle.same(row.handle));
    lemma_place_bound(entries, filtered, row.handle, 0);
    let found = place_of(entries, filtered, row.handle, 0);
    assert(found is Some);
    let i = found->0;
    let there = filtered[i] as int;
    assert(filtered[i] < entries.len());
    if there != j {
        if there < j {
            assert(!<ClientPaletteEntry as PaletteRow>::same_command(entries[there], entries[j]));
        } else {
            assert(!<ClientPaletteEntry as PaletteRow>::same_command(entries[j], entries[there]));
        }
    }
}

/// Only the open palette's own request is waited for; its answer is taken once.
/// Where the plugin source is off or there is no snapshot, none is.
pub proof fn law_only_the_own_answer_is_taken(
    shell: ShellView,
    id: u64,
    reply: Result<EndpointReply, String>,
)
    ensures
        shell.opened().awaits(id) <==> shell.asks_for_plugins() && id == shell.next_request,
        shell.opened().palette() matches Some(palette) && palette.loading
            == shell.asks_for_plugins(),
        !shell.after_reply(reply).awaits(id),
        !(ShellView { overlay: None, ..shell }).awaits(id),
{
}

/// A palette that is opened again waits for another request than the one before.
pub proof fn law_reopening_supersedes_the_request(shell: ShellView)
    requires
        shell.asks_for_plugins(),
    ensures
        !(ShellView { overlay: None, ..shell.opened() }).opened().awaits(shell.next_request),
{
}

/// Running a row closes the palette and asks for exactly one thing: a built-in
/// does what its chord does, a custom command likewise, and a plugin action is
/// invoked by its ids where the endpoint can be reached. Without a highlighted
/// row nothing happens.
pub proof fn law_running_a_row(shell: ShellView, before: InputView)
    ensures
        ({
            let after = shell.input_after_move(PaletteMoveView::Run, before);
            if shell.can_run() {
                &&& shell.after_run().overlay is None
                &&& after.repaint
                &&& after.actions == (match shell.palette()->0.highlighted()->0.handle {
                    ClientHandleView::Action(action) => before.actions.push(
                        ActionView::RunAction(action),
                    ),
                    ClientHandleView::Command(command) => before.actions.push(
                        ActionView::RunCommand(command),
                    ),
                    ClientHandleView::PluginAction { plugin_id, action_id } => {
                        if shell.has_snapshot {
                            before.actions.push(
                                ActionView::InvokePluginAction {
                                    id: shell.next_request,
                                    plugin_id,
                                    action_id,
                                },
                            )
                        } else {
                            before.actions
                        }
                    },
                })
            } else {
                shell.after_run() == shell && after == before
            }
        }),
{
}

/// Movement never changes the query or the rows, and no key but the one that
/// runs a row asks for anything.
pub proof fn law_movement_leaves_the_query(
    shell: ShellView,
    step: PaletteMoveView,
    before: InputView,
)
    requires
        shell.palette() is Some,
    ensures
        !(step is Close) && !(step is Run) ==> shell.after_move(step).palette() is Some
            && shell.after_move(step).palette()->0.entries == shell.palette()->0.entries,
        !(step is Close) && !(step is Run) && query_after(
            shell.palette()->0.query,
            step,
        ) is None ==> shell.after_move(step).palette()->0.query == shell.palette()->0.query,
        !(step is Run) ==> shell.input_after_move(step, before).actions == before.actions,
{
}

/// The catalog has a row of this name and description, whose chord is the given
/// one and which runs the given action; and it has no other row of that name, nor
/// one that runs that action.
pub open spec fn offers(
    keybinds: Keybinds,
    name: Seq<char>,
    description: Seq<char>,
    chord: ActionKeybinds,
    action: KeybindAction,
) -> bool {
    let row = ClientEntryView {
        name,
        description: Some(description),
        keybinding: chord.text(),
        source: ClientPaletteSource::BuiltIn,
        handle: ClientHandleView::Action(action),
    };
    &&& builtin_catalog(keybinds).contains(row)
    &&& forall|x: ClientEntryView| #[trigger]
        builtin_catalog(keybinds).contains(x) && (x.name == name || x.handle
            == ClientHandleView::Action(action)) ==> x == row
}

proof fn lemma_offers(keybinds: Keybinds, chord: ActionKeybinds, action: KeybindAction)
    requires
        entry_text(action) is Some,
        chord_of(keybinds, action) == chord.text(),
    ensures
        offers(
            keybinds,
            (entry_text(action)->0).0,
            (entry_text(action)->0).1,
            chord,
            action,
        ),
{
    let rows = builtin_catalog(keybinds);
    let names = entry_names(rows);
    let text = entry_text(action)->0;
    let row = builtin_row(keybinds, action, text);
    law_catalog_is_sound(keybinds);
    law_catalog_is_complete(keybinds, action);
    assert forall|x: ClientEntryView| #[trigger] rows.contains(x) && (x.name == text.0 || x.handle
        == ClientHandleView::Action(action)) implies x == row by {
        assert(is_builtin_row(keybinds, x));
        if x.name == text.0 {
            law_names_tell_actions_apart(x.handle->Action_0, action);
        }
    }
    let i = choose|i: int| 0 <= i < names.len() && names[i] == text.0;
    assert(rows.contains(rows[i]));
}

/// A built-in row runs the action that it names, and shows the chord of that
/// action.
#[verifier::spinoff_prover]
pub proof fn law_built_in_rows_run_what_they_name(keybinds: Keybinds)
    ensures
        offers(
            keybinds,
            "new-workspace"@,
            "Create a new workspace"@,
            keybinds.new_workspace,
            KeybindAction::NewWorkspace,
        ),
        offers(
            keybinds,
            "new-worktree"@,
            "Create a new linked worktree"@,
            keybinds.new_worktree,
            KeybindAction::NewWorktree,
        ),
        offers(
            keybinds,
            "open-worktree"@,
            "Open an existing worktree"@,
            keybinds.open_worktree,
            KeybindAction::OpenWorktree,
        ),
        offers(
            keybinds,
            "remove-worktree"@,
            "Remove a worktree"@,
            keybinds.remove_worktree,
            KeybindAction::RemoveWorktree,
        ),
        offers(
            keybinds,
            "rename-workspace"@,
            "Rename the current workspace"@,
            keybinds.rename_workspace,
            KeybindAction::RenameWorkspace,
        ),
        offers(
            keybinds,
            "close-workspace"@,
            "Close the current workspace"@,
            keybinds.close_workspace,
            KeybindAction::CloseWorkspace,
        ),
        offers(
            keybinds,
            "workspace-picker"@,
            "Pick a workspace"@,
            keybinds.workspace_picker,
            KeybindAction::WorkspacePicker,
        ),
        offers(
            keybinds,
            "previous-workspace"@,
            "Switch to the previous workspace"@,
            keybinds.previous_workspace,
            KeybindAction::PreviousWorkspace,
        ),
        offers(
            keybinds,
            "next-workspace"@,
            "Switch to the next workspace"@,
            keybinds.next_workspace,
            KeybindAction::NextWorkspace,
        ),
        offers(
            keybinds,
            "previous-agent"@,
            "Focus the previous agent"@,
            keybinds.previous_agent,
            KeybindAction::PreviousAgent,
        ),
        offers(
            keybinds,
            "next-agent"@,
            "Focus the next agent"@,
            keybinds.next_agent,
            KeybindAction::NextAgent,
        ),
        offers(
            keybinds,
            "new-tab"@,
            "Create a new tab"@,
            keybinds.new_tab,
            KeybindAction::NewTab,
        ),
        offers(
            keybinds,
            "rename-tab"@,
            "Rename the current tab"@,
            keybinds.rename_tab,
            KeybindAction::RenameTab,
        ),
        offers(
            keybinds,
            "previous-tab"@,
            "Switch to the previous tab"@,
            keybinds.previous_tab,
            KeybindAction::PreviousTab,
        ),
        offers(
            keybinds,
            "next-tab"@,
            "Switch to the next tab"@,
            keybinds.next_tab,
            KeybindAction::NextTab,
        ),
        offers(
            keybinds,
            "move-tab-previous"@,
            "Move the current tab left"@,
            keybinds.move_tab_previous,
            KeybindAction::MoveTabPrevious,
        ),
        offers(
            keybinds,
            "move-tab-next"@,
            "Move the current tab right"@,
            keybinds.move_tab_next,
            KeybindAction::MoveTabNext,
        ),
        offers(
            keybinds,
            "close-tab"@,
            "Close the current tab"@,
            keybinds.close_tab,
            KeybindAction::CloseTab,
        ),
        offers(
            keybinds,
            "rename-pane"@,
            "Rename the current pane"@,
            keybinds.rename_pane,
            KeybindAction::RenamePane,
        ),
        offers(
            keybinds,
            "focus-pane-left"@,
            "Focus the pane to the left"@,
            keybinds.focus_pane_left,
            KeybindAction::FocusPaneLeft,
        ),
        offers(
            keybinds,
            "focus-pane-down"@,
            "Focus the pane below"@,
            keybinds.focus_pane_down,
            KeybindAction::FocusPaneDown,
        ),
        offers(
            keybinds,
            "focus-pane-up"@,
            "Focus the pane above"@,
            keybinds.focus_pane_up,
            KeybindAction::FocusPaneUp,
        ),
        offers(
            keybinds,
            "focus-pane-right"@,
            "Focus the pane to the right"@,
            keybinds.focus_pane_right,
            KeybindAction::FocusPaneRight,
        ),
        offers(
            keybinds,
            "swap-pane-left"@,
            "Swap with the pane to the left"@,
            keybinds.swap_pane_left,
            KeybindAction::SwapPaneLeft,
        ),
        offers(
            keybinds,
            "swap-pane-down"@,
            "Swap with the pane below"@,
            keybinds.swap_pane_down,
            KeybindAction::SwapPaneDown,
        ),
        offers(
            keybinds,
            "swap-pane-up"@,
            "Swap with the pane above"@,
            keybinds.swap_pane_up,
            KeybindAction::SwapPaneUp,
        ),
        offers(
            keybinds,
            "swap-pane-right"@,
            "Swap with the pane to the right"@,
            keybinds.swap_pane_right,
            KeybindAction::SwapPaneRight,
        ),
        offers(
            keybinds,
            "split-vertical"@,
            "Split the pane vertically"@,
            keybinds.split_vertical,
            KeybindAction::SplitVertical,
        ),
        offers(
            keybinds,
            "split-horizontal"@,
            "Split the pane horizontally"@,
            keybinds.split_horizontal,
            KeybindAction::SplitHorizontal,
        ),
        offers(
            keybinds,
            "close-pane"@,
            "Close the current pane"@,
            keybinds.close_pane,
            KeybindAction::ClosePane,
        ),
        offers(
            keybinds,
            "edit-scrollback"@,
            "Edit the scrollback buffer"@,
            keybinds.edit_scrollback,
            KeybindAction::EditScrollback,
        ),
        offers(
            keybinds,
            "copy-mode"@,
            "Enter copy mode"@,
            keybinds.copy_mode,
            KeybindAction::CopyMode,
        ),
        offers(
            keybinds,
            "zoom"@,
            "Toggle pane zoom"@,
            keybinds.zoom,
            KeybindAction::Zoom,
        ),
        offers(
            keybinds,
            "resize-mode"@,
            "Enter pane resize mode"@,
            keybinds.resize_mode,
            KeybindAction::EnterResizeMode,
        ),
        offers(
            keybinds,
            "resize-pane-left"@,
            "Resize the pane leftward"@,
            keybinds.resize_pane_left,
            KeybindAction::ResizePaneLeft,
        ),
        offers(
            keybinds,
            "resize-pane-down"@,
            "Resize the pane downward"@,
            keybinds.resize_pane_down,
            KeybindAction::ResizePaneDown,
        ),
        offers(
            keybinds,
            "resize-pane-up"@,
            "Resize the pane upward"@,
            keybinds.resize_pane_up,
            KeybindAction::ResizePaneUp,
        ),
        offers(
            keybinds,
            "resize-pane-right"@,
            "Resize the pane rightward"@,
            keybinds.resize_pane_right,
            KeybindAction::ResizePaneRight,
        ),
        offers(
            keybinds,
            "toggle-sidebar"@,
            "Toggle the sidebar"@,
            keybinds.toggle_sidebar,
            KeybindAction::ToggleSidebar,
        ),
        offers(
            keybinds,
            "cycle-pane-next"@,
            "Cycle to the next pane"@,
            keybinds.cycle_pane_next,
            KeybindAction::CyclePaneNext,
        ),
        offers(
            keybinds,
            "cycle-pane-previous"@,
            "Cycle to the previous pane"@,
            keybinds.cycle_pane_previous,
            KeybindAction::CyclePanePrevious,
        ),
        offers(
            keybinds,
            "last-pane"@,
            "Focus the last active pane"@,
            keybinds.last_pane,
            KeybindAction::LastPane,
        ),
        offers(
            keybinds,
            "help"@,
            "Open keybinding help"@,
            keybinds.help,
            KeybindAction::Help,
        ),
        offers(
            keybinds,
            "settings"@,
            "Open settings"@,
            keybinds.settings,
            KeybindAction::Settings,
        ),
        offers(
            keybinds,
            "reload-config"@,
            "Reload configuration"@,
            keybinds.reload_config,
            KeybindAction::ReloadConfig,
        ),
        offers(
            keybinds,
            "open-notification-target"@,
            "Jump to the notification target"@,
            keybinds.open_notification_target,
            KeybindAction::OpenNotificationTarget,
        ),
        offers(
            keybinds,
            "detach"@,
            "Detach from the session"@,
            keybinds.detach,
            KeybindAction::Detach,
        ),
        offers(
            keybinds,
            "navigator"@,
            "Open the navigator"@,
            keybinds.goto,
            KeybindAction::OpenNavigator,
        ),
{
    lemma_offers(keybinds, keybinds.new_workspace, KeybindAction::NewWorkspace);
    lemma_offers(keybinds, keybinds.new_worktree, KeybindAction::NewWorktree);
    lemma_offers(keybinds, keybinds.open_worktree, KeybindAction::OpenWorktree);
    lemma_offers(keybinds, keybinds.remove_worktree, KeybindAction::RemoveWorktree);
    lemma_offers(keybinds, keybinds.rename_workspace, KeybindAction::RenameWorkspace);
    lemma_offers(keybinds, keybinds.close_workspace, KeybindAction::CloseWorkspace);
    lemma_offers(keybinds, keybinds.workspace_picker, KeybindAction::WorkspacePicker);
    lemma_offers(keybinds, keybinds.previous_workspace, KeybindAction::PreviousWorkspace);
    lemma_offers(keybinds, keybinds.next_workspace, KeybindAction::NextWorkspace);
    lemma_offers(keybinds, keybinds.previous_agent, KeybindAction::PreviousAgent);
    lemma_offers(keybinds, keybinds.next_agent, KeybindAction::NextAgent);
    lemma_offers(keybinds, keybinds.new_tab, KeybindAction::NewTab);
    lemma_offers(keybinds, keybinds.rename_tab, KeybindAction::RenameTab);
    lemma_offers(keybinds, keybinds.previous_tab, KeybindAction::PreviousTab);
    lemma_offers(keybinds, keybinds.next_tab, KeybindAction::NextTab);
    lemma_offers(keybinds, keybinds.move_tab_previous, KeybindAction::MoveTabPrevious);
    lemma_offers(keybinds, keybinds.move_tab_next, KeybindAction::MoveTabNext);
    lemma_offers(keybinds, keybinds.close_tab, KeybindAction::CloseTab);
    lemma_offers(keybinds, keybinds.rename_pane, KeybindAction::RenamePane);
    lemma_offers(keybinds, keybinds.focus_pane_left, KeybindAction::FocusPaneLeft);
    lemma_offers(keybinds, keybinds.focus_pane_down, KeybindAction::FocusPaneDown);
    lemma_offers(keybinds, keybinds.focus_pane_up, KeybindAction::FocusPaneUp);
    lemma_offers(keybinds, keybinds.focus_pane_right, KeybindAction::FocusPaneRight);
    lemma_offers(keybinds, keybinds.swap_pane_left, KeybindAction::SwapPaneLeft);
    lemma_offers(keybinds, keybinds.swap_pane_down, KeybindAction::SwapPaneDown);
    lemma_offers(keybinds, keybinds.swap_pane_up, KeybindAction::SwapPaneUp);
    lemma_offers(keybinds, keybinds.swap_pane_right, KeybindAction::SwapPaneRight);
    lemma_offers(keybinds, keybinds.split_vertical, KeybindAction::SplitVertical);
    lemma_offers(keybinds, keybinds.split_horizontal, KeybindAction::SplitHorizontal);
    lemma_offers(keybinds, keybinds.close_pane, KeybindAction::ClosePane);
    lemma_offers(keybinds, keybinds.edit_scrollback, KeybindAction::EditScrollback);
    lemma_offers(keybinds, keybinds.copy_mode, KeybindAction::CopyMode);
    lemma_offers(keybinds, keybinds.zoom, KeybindAction::Zoom);
    lemma_offers(keybinds, keybinds.resize_mode, KeybindAction::EnterResizeMode);
    lemma_offers(keybinds, keybinds.resize_pane_left, KeybindAction::ResizePaneLeft);
    lemma_offers(keybinds, keybinds.resize_pane_down, KeybindAction::ResizePaneDown);
    lemma_offers(keybinds, keybinds.resize_pane_up, KeybindAction::ResizePaneUp);
    lemma_offers(keybinds, keybinds.resize_pane_right, KeybindAction::ResizePaneRight);
    lemma_offers(keybinds, keybinds.toggle_sidebar, KeybindAction::ToggleSidebar);
    lemma_offers(keybinds, keybinds.cycle_pane_next, KeybindAction::CyclePaneNext);
    lemma_offers(keybinds, keybinds.cycle_pane_previous, KeybindAction::CyclePanePrevious);
    lemma_offers(keybinds, keybinds.last_pane, KeybindAction::LastPane);
    lemma_offers(keybinds, keybinds.help, KeybindAction::Help);
    lemma_offers(keybinds, keybinds.settings, KeybindAction::Settings);
    lemma_offers(keybinds, keybinds.reload_config, KeybindAction::ReloadConfig);
    lemma_offers(keybinds, keybinds.open_notification_target, KeybindAction::OpenNotificationTarget);
    lemma_offers(keybinds, keybinds.detach, KeybindAction::Detach);
    lemma_offers(keybinds, keybinds.goto, KeybindAction::OpenNavigator);
}

/// The catalog of built-ins offers neither the palette itself nor an action with
/// a fixed index.
pub proof fn law_catalog_offers_no_fixed_index(keybinds: Keybinds, row: ClientEntryView)
    requires
        builtin_catalog(keybinds).contains(row),
    ensures
        row.source == ClientPaletteSource::BuiltIn,
        row.handle matches ClientHandleView::Action(action) && action
            != KeybindAction::OpenCommandPalette && !(action is SwitchWorkspace) && !(
        action is SwitchTab) && !(action is FocusAgent),
{
    law_catalog_is_sound(keybinds);
    assert(is_builtin_row(keybinds, row));
}

/// A fresh palette lists the built-ins where that source is on and the user's own
/// commands where that one is, each under its own name, with its own chord, and
/// once; it lists nothing else, and under the empty query all of it in name order.
#[verifier::spinoff_prover]
pub proof fn law_sources_decide_the_rows(shell: ShellView, i: int)
    requires
        builtin_catalog(shell.keybinds).len() + shell.keybinds.custom_commands@.len() <= usize::MAX,
    ensures
        ({
            let rows = shell.fresh_palette().entries;
            let custom = shell.keybinds.custom_commands@;
            &&& shell.sources.built_in ==> forall|x: ClientEntryView| #[trigger]
                builtin_catalog(shell.keybinds).contains(x) ==> rows.contains(x)
            &&& shell.sources.custom && 0 <= i < custom.len() && (forall|j: int|
                0 <= j < i ==> (#[trigger] custom[j]).command@ != custom[i].command@)
                ==> rows.contains(
                ClientEntryView {
                    name: custom[i].label@,
                    description: opt_text(custom[i].description),
                    keybinding: opt_text(custom[i].keybind_display),
                    source: ClientPaletteSource::Custom,
                    handle: ClientHandleView::Command(custom[i]@),
                },
            )
            &&& forall|x: ClientEntryView| #[trigger]
                rows.contains(x) ==> {
                    ||| shell.sources.built_in && builtin_catalog(shell.keybinds).contains(x)
                    ||| shell.sources.custom && x.source is Custom && exists|k: int|
                        0 <= k < custom.len() && x.handle == ClientHandleView::Command(
                            #[trigger] custom[k]@,
                        ) && x.name == custom[k].label@
                }
            &&& forall|a: int, b: int|
                0 <= a < b < rows.len() ==> text_at_most(
                    (#[trigger] rows[a]).name,
                    (#[trigger] rows[b]).name,
                )
            &&& shell.fresh_palette().filtered.len() == rows.len()
            &&& forall|k: int| 0 <= k < rows.len() ==> #[trigger] shell.fresh_palette().filtered[k]
                == k
        }),
{
    let custom = views(shell.keybinds.custom_commands@);
    let first = if shell.sources.built_in {
        builtin_catalog(shell.keybinds)
    } else {
        Seq::empty()
    };
    let second = if shell.sources.custom {
        custom_rows(custom)
    } else {
        Seq::empty()
    };
    let all = first + second;
    let once = first_of_each::<ClientPaletteEntry>(all);
    let rows = shell.fresh_palette().entries;
    law_catalog_is_sound(shell.keybinds);
    lemma_normalized(all);
    law_each_command_is_listed_once::<ClientPaletteEntry>(all);
    law_sorting_orders_the_rows::<ClientPaletteEntry>(once);
    assert forall|x: ClientEntryView| #[trigger] first.contains(x) implies rows.contains(x) by {
        let k = choose|k: int| 0 <= k < first.len() && first[k] == x;
        assert(all[k] == x);
        assert(is_builtin_row(shell.keybinds, x));
        assert forall|j: int| 0 <= j < k implies !<ClientPaletteEntry as PaletteRow>::same_command(
            #[trigger] all[j],
            all[k],
        ) by {
            assert(all[j] == first[j]);
            assert(first.contains(first[j]));
            assert(is_builtin_row(shell.keybinds, first[j]));
            assert(text_less(first[j].name, first[k].name));
            lemma_text_less_irreflexive(first[k].name);
        }
        law_first_of_a_command_is_kept::<ClientPaletteEntry>(all, k);
    }
    if shell.sources.custom && 0 <= i < custom.len() && (forall|j: int|
        0 <= j < i ==> (#[trigger] shell.keybinds.custom_commands@[j]).command@
            != shell.keybinds.custom_commands@[i].command@) {
        let k = first.len() + i;
        assert(all[k] == custom_row(custom[i]));
        assert forall|j: int| 0 <= j < k implies !<ClientPaletteEntry as PaletteRow>::same_command(
            #[trigger] all[j],
            all[k],
        ) by {
            if j < first.len() {
                assert(first.contains(all[j]));
                assert(is_builtin_row(shell.keybinds, all[j]));
            } else {
                assert(all[j] == custom_row(custom[j - first.len()]));
                assert(custom[j - first.len()]
                    == shell.keybinds.custom_commands@[j - first.len()]@);
            }
        }
        law_first_of_a_command_is_kept::<ClientPaletteEntry>(all, k);
    }
    assert forall|x: ClientEntryView| #[trigger] rows.contains(x) implies {
        ||| shell.sources.built_in && builtin_catalog(shell.keybinds).contains(x)
        ||| shell.sources.custom && x.source is Custom && exists|k: int|
            0 <= k < shell.keybinds.custom_commands@.len() && x.handle == ClientHandleView::Command(
                #[trigger] shell.keybinds.custom_commands@[k]@,
            ) && x.name == shell.keybinds.custom_commands@[k].label@
    } by {
        assert(once.contains(x));
        assert(all.contains(x));
        let k = choose|k: int| 0 <= k < all.len() && all[k] == x;
        if k < first.len() {
            assert(first[k] == x);
        } else {
            let at = k - first.len();
            assert(second[at] == x);
            assert(x == custom_row(custom[at]));
            assert(custom[at] == shell.keybinds.custom_commands@[at]@);
        }
    }
    law_fresh_palette_is_sound(shell);
    let names = entry_names(rows);
    assert forall|a: int, b: int| 0 <= a < b < names.len() implies text_at_most(
        #[trigger] names[a],
        #[trigger] names[b],
    ) by {
        assert(names[a] == rows[a].name && names[b] == rows[b].name);
    }
    law_empty_query_lists_all(names, shell.fresh_palette().filtered);
}

/// When the plugin actions come, every row that was listed stays, and each action
/// gets a row of its title and its ids, once, and no chord; nothing else is added,
/// and the query stays as typed.
#[verifier::spinoff_prover]
pub proof fn law_plugin_actions_are_listed(
    palette: ClientPaletteView,
    actions: Seq<PluginActionView>,
    i: int,
)
    requires
        palette.sound(),
        palette.entries.len() + actions.len() <= usize::MAX,
    ensures
        ({
            let after = palette.with_plugins(actions);
            &&& after.query == palette.query
            &&& !after.loading && after.request is None
            &&& forall|x: ClientEntryView| #[trigger]
                palette.entries.contains(x) ==> after.entries.contains(x)
            &&& 0 <= i < actions.len() && (forall|j: int|
                0 <= j < i ==> (#[trigger] actions[j]).plugin_id != actions[i].plugin_id
                    || actions[j].action_id != actions[i].action_id) && (forall|k: int|
                0 <= k < palette.entries.len() ==> !((#[trigger] palette.entries[k]).handle
                    is PluginAction)) ==> after.entries.contains(
                ClientEntryView {
                    name: actions[i].title,
                    description: actions[i].description,
                    keybinding: None,
                    source: ClientPaletteSource::Plugin,
                    handle: ClientHandleView::PluginAction {
                        plugin_id: actions[i].plugin_id,
                        action_id: actions[i].action_id,
                    },
                },
            )
            &&& forall|x: ClientEntryView| #[trigger]
                after.entries.contains(x) ==> palette.entries.contains(x) || exists|k: int|
                    0 <= k < actions.len() && x.name == (#[trigger] actions[k]).title && x.handle
                        == (ClientHandleView::PluginAction {
                        plugin_id: actions[k].plugin_id,
                        action_id: actions[k].action_id,
                    })
        }),
{
    let first = palette.entries;
    let second = plugin_rows(actions);
    let all = first + second;
    let once = first_of_each::<ClientPaletteEntry>(all);
    let rows = palette.with_plugins(actions).entries;
    law_each_command_is_listed_once::<ClientPaletteEntry>(all);
    law_sorting_orders_the_rows::<ClientPaletteEntry>(once);
    assert forall|x: ClientEntryView| #[trigger] first.contains(x) implies rows.contains(x) by {
        let k = choose|k: int| 0 <= k < first.len() && first[k] == x;
        assert(all[k] == x);
        assert forall|j: int| 0 <= j < k implies !<ClientPaletteEntry as PaletteRow>::same_command(
            #[trigger] all[j],
            all[k],
        ) by {
            assert(all[j] == first[j]);
        }
        law_first_of_a_command_is_kept::<ClientPaletteEntry>(all, k);
    }
    if 0 <= i < actions.len() && (forall|j: int|
        0 <= j < i ==> (#[trigger] actions[j]).plugin_id != actions[i].plugin_id
            || actions[j].action_id != actions[i].action_id) && (forall|k: int|
        0 <= k < first.len() ==> !((#[trigger] first[k]).handle is PluginAction)) {
        let k = first.len() + i;
        assert(all[k] == plugin_row(actions[i]));
        assert forall|j: int| 0 <= j < k implies !<ClientPaletteEntry as PaletteRow>::same_command(
            #[trigger] all[j],
            all[k],
        ) by {
            if j < first.len() {
                assert(all[j] == first[j]);
            } else {
                assert(all[j] == plugin_row(actions[j - first.len()]));
            }
        }
        law_first_of_a_command_is_kept::<ClientPaletteEntry>(all, k);
    }
    assert forall|x: ClientEntryView| #[trigger] rows.contains(x) implies first.contains(x)
        || exists|k: int|
        0 <= k < actions.len() && x.name == (#[trigger] actions[k]).title && x.handle == (
        ClientHandleView::PluginAction {
            plugin_id: actions[k].plugin_id,
            action_id: actions[k].action_id,
        }) by {
        assert(once.contains(x));
        assert(all.contains(x));
        let k = choose|k: int| 0 <= k < all.len() && all[k] == x;
        if k < first.len() {
            assert(first[k] == x);
        } else {
            assert(x == plugin_row(actions[k - first.len()]));
        }
    }
}

/// The arrows, and control with `p` and `n`, go to the row beside; from either end
/// they go round to the other. Home and End go to the ends. A page key goes by the
/// rows that the list shows, control with `d` and `u` by half of that, and both
/// stop at the ends. Escape closes. None of them changes anything else.
#[verifier::spinoff_prover]
pub proof fn law_movement_keys(shell: ShellView, key: PaletteKey)
    requires
        shell.palette() is Some,
        shell.palette()->0.selected < shell.palette()->0.filtered.len() <= 0xffff_ffff,
        shell.list_height <= 0xffff_ffff,
    ensures
        ({
            let p = shell.palette()->0;
            let at = p.selected as int;
            let last = p.filtered.len() - 1;
            let page = if shell.list_height == 0 {
                1
            } else {
                shell.list_height as int
            };
            let half = if page < 2 {
                1
            } else {
                page / 2
            };
            let after = shell.after_move(shell.move_for(key));
            let control = key.modifiers & 2u8 == 2u8;
            let to = |n: int|
                ShellView {
                    overlay: Some(
                        OverlayView::CommandPalette(
                            ClientPaletteView { selected: n as usize, ..p },
                        ),
                    ),
                    ..shell
                };
            &&& key.code is Esc ==> after == (ShellView { overlay: None, ..shell })
            &&& key.code is Up || (control && key.code == KeyCode::Char('p')) ==> after == to(
                if at == 0 {
                    last
                } else {
                    at - 1
                },
            )
            &&& key.code is Down || (control && key.code == KeyCode::Char('n')) ==> after == to(
                if at == last {
                    0
                } else {
                    at + 1
                },
            )
            &&& key.code is Home ==> after == to(0)
            &&& key.code is End ==> after == to(last)
            &&& key.code is PageDown ==> after == to(
                if at + page > last {
                    last
                } else {
                    at + page
                },
            )
            &&& key.code is PageUp ==> after == to(
                if at - page < 0 {
                    0
                } else {
                    at - page
                },
            )
            &&& control && key.code == KeyCode::Char('d') ==> after == to(
                if at + half > last {
                    last
                } else {
                    at + half
                },
            )
            &&& control && key.code == KeyCode::Char('u') ==> after == to(
                if at - half < 0 {
                    0
                } else {
                    at - half
                },
            )
            &&& key.code is Other ==> after == shell
        }),
{
    let p = shell.palette()->0;
    let at = p.selected as int;
    let len = p.filtered.len() as int;
    law_steps_wrap_around(at, len);
    if at > 0 {
        law_moves_go_as_far_as_they_say(at, len, -1);
    }
    if at + 1 < len {
        law_moves_go_as_far_as_they_say(at, len, 1);
    }
}

/// What a key types goes to the end of the query. Backspace takes the last
/// character; with control or alt, as control with `w` or `h`, the last word; with
/// super everything. The rows are filtered by what is left, and the best match is
/// selected; nothing else changes.
#[verifier::spinoff_prover]
pub proof fn law_typing_keys(shell: ShellView, key: PaletteKey)
    requires
        shell.palette() is Some,
    ensures
        ({
            let p = shell.palette()->0;
            let after = shell.after_move(shell.move_for(key));
            let control = key.modifiers & 2u8 == 2u8;
            let alt = key.modifiers & 4u8 == 4u8;
            let meta = key.modifiers & 8u8 == 8u8;
            let with = |query: Seq<char>|
                ShellView {
                    overlay: Some(
                        OverlayView::CommandPalette(
                            ClientPaletteView {
                                query,
                                filtered: ranking(entry_names(p.entries), query),
                                selected: 0,
                                ..p
                            },
                        ),
                    ),
                    ..shell
                };
            &&& key.code matches KeyCode::Char(c) ==> (key.modifiers <= 1 ==> after == with(
                p.query + (match key.generated_text {
                    Some(text) => text@,
                    None => seq![c],
                }),
            ))
            &&& key.code is Char && !control && (alt || meta) ==> after == shell
            &&& key.code is Backspace && !control && !alt && !meta && p.query.len() > 0 ==> after
                == with(p.query.take(p.query.len() - 1))
            &&& key.code is Backspace && meta ==> after == with(Seq::empty())
            &&& (key.code is Backspace && !meta && (control || alt)) || (control && (key.code
                == KeyCode::Char('w') || key.code == KeyCode::Char('h'))) ==> after == with(
                without_word(trim_end(p.query)),
            )
        }),
{
    let m = key.modifiers;
    assert(m <= 1 ==> m & !1u8 == 0 && m & 2u8 != 2u8) by (bit_vector);
    assert(m & 4u8 == 4u8 ==> m & !1u8 != 0) by (bit_vector);
    assert(m & 8u8 == 8u8 ==> m & !1u8 != 0) by (bit_vector);
    let q = shell.palette()->0.query;
    if q.len() > 0 {
        assert(q.drop_last() =~= q.take(q.len() - 1));
    }
}

/// Deleting a word keeps a start of the query. What goes is one word, that is
/// characters without a blank between them, and the blank space behind it; what
/// stays is empty or ends in a blank.
pub proof fn law_one_word_goes(query: Seq<char>) -> (bounds: (int, int))
    ensures
        0 <= bounds.0 <= bounds.1 <= query.len(),
        without_word(trim_end(query)) == query.take(bounds.0),
        forall|i: int| bounds.0 <= i < bounds.1 ==> !whitespace(#[trigger] query[i]),
        forall|i: int| bounds.1 <= i < query.len() ==> whitespace(#[trigger] query[i]),
        bounds.0 > 0 ==> whitespace(query[bounds.0 - 1]),
        bounds.0 == bounds.1 ==> bounds.0 == 0,
{
    let end = lemma_end_bound(query);
    let start = lemma_word_bound(query.take(end));
    assert(query.take(end).take(start) =~= query.take(start));
    assert forall|i: int| start <= i < end implies !whitespace(#[trigger] query[i]) by {
        assert(query.take(end)[i] == query[i]);
    }
    if start > 0 {
        assert(query.take(end)[start - 1] == query[start - 1]);
    }
    if start == end && end > 0 {
        assert(query.take(end)[end - 1] == query[end - 1]);
    }
    (start, end)
}

proof fn lemma_end_bound(s: Seq<char>) -> (n: int)
    ensures
        0 <= n <= s.len(),
        trim_end(s) == s.take(n),
        forall|i: int| n <= i < s.len() ==> whitespace(#[trigger] s[i]),
        n > 0 ==> !whitespace(s[n - 1]),
    decreases s.len(),
{
    if s.len() > 0 && whitespace(s.last()) {
        let n = lemma_end_bound(s.drop_last());
        assert(s.drop_last().take(n) =~= s.take(n));
        assert forall|i: int| n <= i < s.len() implies whitespace(#[trigger] s[i]) by {
            if i < s.len() - 1 {
                assert(s.drop_last()[i] == s[i]);
            }
        }
        if n > 0 {
            assert(s.drop_last()[n - 1] == s[n - 1]);
        }
        n
    } else {
        assert(s.take(s.len() as int) =~= s);
        s.len() as int
    }
}

proof fn lemma_word_bound(s: Seq<char>) -> (n: int)
    ensures
        0 <= n <= s.len(),
        without_word(s) == s.take(n),
        forall|i: int| n <= i < s.len() ==> !whitespace(#[trigger] s[i]),
        n > 0 ==> whitespace(s[n - 1]),
    decreases s.len(),
{
    if s.len() > 0 && !whitespace(s.last()) {
        let n = lemma_word_bound(s.drop_last());
        assert(s.drop_last().take(n) =~= s.take(n));
        assert forall|i: int| n <= i < s.len() implies !whitespace(#[trigger] s[i]) by {
            if i < s.len() - 1 {
                assert(s.drop_last()[i] == s[i]);
            }
        }
        if n > 0 {
            assert(s.drop_last()[n - 1] == s[n - 1]);
        }
        n
    } else {
        assert(s.take(s.len() as int) =~= s);
        s.len() as int
    }
}

/// A change of the query by itself leaves what the key for it leaves.
pub proof fn law_edits_do_what_their_keys_do(shell: ShellView, edit: QueryEdit)
    requires
        shell.palette() is Some,
    ensures
        shell.on_palette(|p: ClientPaletteView| p.edited(edit)) == shell.after_move(
            PaletteMove::Edit(edit)@,
        ),
{
}

/// What Enter asks for when a row stands at `at` in the rows: what that row's
/// chord does, or its plugin action by its ids.
pub open spec fn asks_for_row(
    shell: ShellView,
    at: int,
    before: InputView,
    after: InputView,
) -> bool {
    let row = shell.palette()->0.entries[at];
    &&& after.repaint
    &&& row.handle matches ClientHandleView::Action(action) ==> after.actions
        == before.actions.push(ActionView::RunAction(action))
    &&& row.handle matches ClientHandleView::Command(command) ==> after.actions
        == before.actions.push(ActionView::RunCommand(command))
    &&& row.handle matches ClientHandleView::PluginAction { plugin_id, action_id } ==> (
    shell.has_snapshot ==> after.actions == before.actions.push(
        ActionView::InvokePluginAction { id: shell.next_request, plugin_id, action_id },
    ))
    &&& row.handle is PluginAction && !shell.has_snapshot ==> after.actions == before.actions
}

/// Enter runs the row that the list has at the selected place, and closes the
/// palette; where the list is empty nothing happens.
pub proof fn law_enter_runs_the_selected_row(shell: ShellView, key: PaletteKey, before: InputView)
    requires
        shell.palette() is Some,
        key.code is Enter,
    ensures
        ({
            let p = shell.palette()->0;
            let step = shell.move_for(key);
            let after = shell.input_after_move(step, before);
            &&& p.selected < p.filtered.len() && p.filtered[p.selected as int] < p.entries.len()
                ==> shell.after_move(step).overlay is None && asks_for_row(
                shell,
                p.filtered[p.selected as int] as int,
                before,
                after,
            )
            &&& p.filtered.len() == 0 ==> shell.after_move(step) == shell && after == before
        }),
{
}

/// A cell is in a rectangle: between its edges, the far ones left out.
pub open spec fn is_within(area: Rect, x: u16, y: u16) -> bool {
    &&& area.x <= x < area.x + area.width && x < 0xffff
    &&& area.y <= y < area.y + area.height && y < 0xffff
}

/// A click on a row does what Enter does with that row selected. One inside the
/// box but on no row does nothing; one outside closes the palette and asks for
/// nothing.
#[verifier::spinoff_prover]
pub proof fn law_clicks(
    shell: ShellView,
    rows: Seq<(Rect, usize)>,
    popup: Rect,
    x: u16,
    y: u16,
    before: InputView,
    i: int,
)
    requires
        shell.palette() is Some,
    ensures
        ({
            let p = shell.palette()->0;
            let after = shell.after_click(rows, popup, x, y);
            let input = shell.input_after_click(rows, popup, x, y, before);
            &&& 0 <= i < rows.len() && is_within(rows[i].0, x, y) && (forall|j: int|
                0 <= j < i ==> !is_within((#[trigger] rows[j]).0, x, y)) && rows[i].1
                < p.filtered.len() && p.filtered[rows[i].1 as int] < p.entries.len()
                ==> after.overlay is None && asks_for_row(
                shell,
                p.filtered[rows[i].1 as int] as int,
                before,
                input,
            )
            &&& (forall|j: int| 0 <= j < rows.len() ==> !is_within((#[trigger] rows[j]).0, x, y))
                && is_within(popup, x, y) ==> after == shell && input == before
            &&& (forall|j: int| 0 <= j < rows.len() ==> !is_within((#[trigger] rows[j]).0, x, y))
                && !is_within(popup, x, y) ==> after == (ShellView { overlay: None, ..shell })
                && input == (InputView { repaint: true, ..before })
        }),
{
    assert forall|area: Rect| is_within(area, x, y) == #[trigger] covers(area, x, y) by {}
    lemma_row_under(rows, x, y);
    match row_under(rows, x, y) {
        Some(row) => {
            if 0 <= i < rows.len() && is_within(rows[i].0, x, y) && (forall|j: int|
                0 <= j < i ==> !is_within((#[trigger] rows[j]).0, x, y)) {
                let k = choose|k: int|
                    0 <= k < rows.len() && covers(rows[k].0, x, y) && rows[k].1 == row && (forall|
                        j: int,
                    |
                        0 <= j < k ==> !covers((#[trigger] rows[j]).0, x, y));
                assert(covers(rows[i].0, x, y));
                if k < i {
                    assert(!is_within(rows[k].0, x, y));
                }
                assert(k == i);
            }
        },
        None => {},
    }
}

proof fn lemma_row_under(rows: Seq<(Rect, usize)>, x: u16, y: u16)
    ensures
        row_under(rows, x, y) matches Some(row) ==> exists|k: int|
            0 <= k < rows.len() && covers((#[trigger] rows[k]).0, x, y) && rows[k].1 == row && (
            forall|j: int| 0 <= j < k ==> !covers((#[trigger] rows[j]).0, x, y)),
        row_under(rows, x, y) is None ==> forall|j: int|
            0 <= j < rows.len() ==> !covers((#[trigger] rows[j]).0, x, y),
    decreases rows.len(),
{
    if rows.len() > 0 && !covers(rows[0].0, x, y) {
        let rest = rows.skip(1);
        lemma_row_under(rest, x, y);
        match row_under(rest, x, y) {
            Some(row) => {
                let k = choose|k: int|
                    0 <= k < rest.len() && covers((#[trigger] rest[k]).0, x, y) && rest[k].1 == row
                        && (forall|j: int| 0 <= j < k ==> !covers((#[trigger] rest[j]).0, x, y));
                assert(rows[k + 1] == rest[k]);
                assert forall|j: int| 0 <= j < k + 1 implies !covers(
                    (#[trigger] rows[j]).0,
                    x,
                    y,
                ) by {
                    if j > 0 {
                        assert(rows[j] == rest[j - 1]);
                    }
                }
            },
            None => {
                assert forall|j: int| 0 <= j < rows.len() implies !covers(
                    (#[trigger] rows[j]).0,
                    x,
                    y,
                ) by {
                    if j > 0 {
                        assert(rows[j] == rest[j - 1]);
                    }
                }
            },
        }
    } else if rows.len() > 0 {
        assert(covers(rows[0].0, x, y));
    }
}

/// An answer that is no list, and an error, are shown; the palette stays as it is
/// and waits no more. A list is merged and shows no error.
pub proof fn law_answers(shell: ShellView, message: String, actions: Vec<PluginActionInfo>)
    requires
        shell.palette() is Some,
    ensures
        ({
            let p = shell.palette()->0;
            let kept = Some(
                OverlayView::CommandPalette(
                    ClientPaletteView { loading: false, request: None, ..p },
                ),
            );
            &&& shell.after_reply(Ok(EndpointReply::Other)) == (ShellView {
                overlay: kept,
                endpoint_error: Some(
                    "endpoint returned an unexpected plugin action list result"@,
                ),
                ..shell
            })
            &&& shell.after_reply(Err(message)) == (ShellView {
                overlay: kept,
                endpoint_error: Some(message@),
                ..shell
            })
            &&& shell.after_reply(Ok(EndpointReply::PluginActionList(actions))) == (ShellView {
                overlay: Some(OverlayView::CommandPalette(p.with_plugins(views(actions@)))),
                ..shell
            })
        }),
{
}

/// Opening the palette ends a drag, starts with an empty query, and asks for the
/// plugin actions under a new id where their source is on and the endpoint can be
/// reached; nothing else of the shell changes.
pub proof fn law_opening(shell: ShellView)
    ensures
        ({
            let asks = shell.sources.plugin && shell.has_snapshot;
            let after = shell.opened();
            &&& after.palette() matches Some(p) && p.query.len() == 0 && p.selected == 0
                && p.loading == asks && p.request == (if asks {
                Some(shell.next_request)
            } else {
                None
            })
            &&& after == (ShellView {
                overlay: after.overlay,
                chrome_drag: false,
                next_request: after.next_request,
                ..shell
            })
            &&& asks && shell.next_request < u64::MAX ==> after.next_request
                == shell.next_request + 1
            &&& asks && shell.next_request == u64::MAX ==> after.next_request == 0
            &&& !asks ==> after.next_request == shell.next_request
        }),
{
}

/// Running a row closes the palette and touches nothing else of the shell, except
/// that a plugin action that is invoked uses up a request id.
pub proof fn law_running_leaves_the_rest(shell: ShellView)
    requires
        shell.can_run(),
    ensures
        ({
            let after = shell.after_run();
            let invokes = shell.has_snapshot && shell.palette()->0.highlighted()->0.handle
                is PluginAction;
            &&& after == (ShellView { overlay: None, next_request: after.next_request, ..shell })
            &&& invokes && shell.next_request < u64::MAX ==> after.next_request
                == shell.next_request + 1
            &&& invokes && shell.next_request == u64::MAX ==> after.next_request == 0
            &&& !invokes ==> after.next_request == shell.next_request
        }),
{
}

} // verus!
