//! Requests that write the status strip's push lane.

use vstd::prelude::*;
use vstd::set_lib::lemma_len_subset;

use crate::api::schema::{
    StatusClearParams, StatusOutcome, StatusReply, StatusReplyView, StatusSetParams,
};
use crate::app::slots::{
    law_purge_keeps_what_is_shown, law_reports_follow_the_display, SlotStoreView,
    MAX_STATUS_SLOT_SOURCES,
};
use crate::app::status_strip::references;
use crate::app::{App, AppView};
use crate::text::{chars_of, opt_text, string_of, trim_bounds, trimmed, whitespace};
use crate::time::{Duration, Instant};
use crate::ui::status_right::{law_plain_output_is_kept, sanitize_command_output, sanitized};

verus! {

/// Longest source name, in characters.
pub const STATUS_SOURCE_MAX_CHARS: usize = 80;

/// Shortest time to live, in milliseconds.
pub const STATUS_TTL_MIN_MS: u64 = 1;

/// Longest time to live, in milliseconds: a day.
pub const STATUS_TTL_MAX_MS: u64 = 86_400_000;

/// The characters of a source name.
pub open spec fn source_char(c: char) -> bool {
    ||| 'a' <= c <= 'z'
    ||| 'A' <= c <= 'Z'
    ||| '0' <= c <= '9'
    ||| c == ':' || c == '.' || c == '_' || c == '-'
}

fn is_source_char(c: char) -> (r: bool)
    ensures
        r == source_char(c),
{
    ('a' <= c && c <= 'z') || ('A' <= c && c <= 'Z') || ('0' <= c && c <= '9') || c == ':' || c
        == '.' || c == '_' || c == '-'
}

/// What is wrong with a source, once blank space at its ends is gone.
pub open spec fn source_fault(value: Seq<char>) -> Option<Seq<char>> {
    let name = trimmed(value);
    if name.len() == 0 {
        Some("status source must not be empty"@)
    } else if name.len() > STATUS_SOURCE_MAX_CHARS {
        Some("status source must be 80 characters or fewer"@)
    } else if exists|i: int| 0 <= i < name.len() && !source_char(#[trigger] name[i]) {
        Some(
            "status source may contain only ASCII letters, digits, colon, dot, underscore, and hyphen"@,
        )
    } else {
        None
    }
}

/// Validate a source: ASCII letters, digits and `:._-`, not empty, and at most
/// 80 characters. Blank space at its ends does not count.
pub fn normalize_status_source(value: String) -> (r: Result<String, &'static str>)
    ensures
        match r {
            Ok(name) => source_fault(value@) is None && name@ == trimmed(value@),
            Err(message) => source_fault(value@) == Some(message@),
        },
{
    let chars = chars_of(value.as_str());
    let bounds = trim_bounds(chars.as_slice());
    let ghost name = trimmed(value@);
    if bounds.0 == bounds.1 {
        return Err("status source must not be empty");
    }
    if bounds.1 - bounds.0 > STATUS_SOURCE_MAX_CHARS {
        return Err("status source must be 80 characters or fewer");
    }
    let mut i: usize = bounds.0;
    while i < bounds.1
        invariant
            bounds.0 <= i <= bounds.1 <= chars@.len(),
            name == chars@.subrange(bounds.0 as int, bounds.1 as int),
            forall|k: int| 0 <= k < i - bounds.0 ==> source_char(#[trigger] name[k]),
            name == trimmed(value@),
            0 < name.len() <= STATUS_SOURCE_MAX_CHARS,
        decreases bounds.1 - i,
    {
        if !is_source_char(chars[i]) {
            assert(!source_char(name[i - bounds.0]));
            return Err(
                "status source may contain only ASCII letters, digits, colon, dot, underscore, and hyphen",
            );
        }
        i = i + 1;
    }
    Ok(string_of(chars.as_slice(), bounds.0, bounds.1))
}

/// What is wrong with a time to live.
pub open spec fn ttl_fault(ttl_ms: Option<u64>) -> Option<Seq<char>> {
    match ttl_ms {
        None => None,
        Some(ms) => if ms < STATUS_TTL_MIN_MS {
            Some("status ttl_ms must be at least 1"@)
        } else if ms > STATUS_TTL_MAX_MS {
            Some("status ttl_ms must be 86400000 or less"@)
        } else {
            None
        },
    }
}

/// A time to live as a span.
pub open spec fn ttl_span(ttl_ms: Option<u64>) -> Option<Duration> {
    match ttl_ms {
        None => None,
        Some(ms) => Some(Duration::millis(ms)),
    }
}

/// Validate an optional time to live in milliseconds.
pub fn normalize_status_ttl(ttl_ms: Option<u64>) -> (r: Result<Option<Duration>, &'static str>)
    ensures
        match r {
            Ok(span) => ttl_fault(ttl_ms) is None && span == ttl_span(ttl_ms),
            Err(message) => ttl_fault(ttl_ms) == Some(message@),
        },
{
    let ms = match ttl_ms {
        Some(ms) => ms,
        None => {
            return Ok(None);
        },
    };
    if ms < STATUS_TTL_MIN_MS {
        return Err("status ttl_ms must be at least 1");
    }
    if ms > STATUS_TTL_MAX_MS {
        return Err("status ttl_ms must be 86400000 or less");
    }
    Ok(Some(Duration::from_millis(ms)))
}

/// Reduce a text to plain text, by the rules for command output; `None` where
/// nothing is left.
pub fn sanitize_status_text(text: &str) -> (r: Option<String>)
    ensures
        opt_text(r) == (if sanitized(text@).len() > 0 {
            Some(sanitized(text@))
        } else {
            None
        }),
{
    let clean = sanitize_command_output(text);
    if clean.as_str().is_empty() {
        None
    } else {
        Some(clean)
    }
}

/// Why a report cannot be stored: its error code and message.
pub open spec fn set_error(
    slots: SlotStoreView,
    source: Seq<char>,
    ttl_ms: Option<u64>,
    now: Instant,
) -> Option<(Seq<char>, Seq<char>)> {
    if source_fault(source) is Some {
        Some(("invalid_status_source"@, source_fault(source)->0))
    } else if ttl_fault(ttl_ms) is Some {
        Some(("invalid_status_ttl"@, ttl_fault(ttl_ms)->0))
    } else if is_full_for(slots.purged(now), trimmed(source)) {
        Some(("status_slot_limit"@, "the status strip holds at most 32 pushed sources"@))
    } else {
        None
    }
}

/// The store has no room for a source it does not hold.
pub open spec fn is_full_for(slots: SlotStoreView, source: Seq<char>) -> bool {
    !slots.slots.dom().contains(source) && slots.slots.dom().len() >= MAX_STATUS_SLOT_SOURCES
}

impl AppView {
    /// The endpoint after a report. A report with a malformed source or time to
    /// live changes nothing; any other reclaims expired values first.
    pub open spec fn after_status_set(
        self,
        source: Seq<char>,
        text: Seq<char>,
        seq: Option<u64>,
        ttl_ms: Option<u64>,
        now: Instant,
    ) -> AppView {
        let room = self.slots.purged(now);
        let name = trimmed(source);
        if source_fault(source) is Some || ttl_fault(ttl_ms) is Some {
            self
        } else if is_full_for(room, name) {
            AppView { slots: room, ..self }
        } else {
            AppView {
                slots: room.after_set(name, sanitized(text), seq, ttl_span(ttl_ms), now),
                repaint: self.repaint || (room.accepts(name, seq) && room.shown(name, now) != Some(
                    sanitized(text),
                ) && references(self.strip, name)),
                ..self
            }
        }
    }

    /// The endpoint after a request to clear a source.
    pub open spec fn after_status_clear(self, source: Seq<char>, now: Instant) -> AppView {
        let name = trimmed(source);
        if source_fault(source) is Some {
            self
        } else {
            AppView {
                slots: self.slots.after_clear(name),
                repaint: self.repaint || (self.slots.shown(name, now) is Some && references(
                    self.strip,
                    name,
                )),
                ..self
            }
        }
    }
}

impl App {
    /// Store a pushed value. Its text is reduced to plain text, so that a value
    /// cannot carry styling; a text that reduces to nothing blanks the slot.
    pub fn handle_status_set(&mut self, id: String, params: StatusSetParams, now: Instant) -> (r:
        StatusReply)
        requires
            old(self).wf(),
        ensures
            final(self).wf(),
            r@ == (StatusReplyView {
                id: id@,
                error: set_error(old(self)@.slots, params.source@, params.ttl_ms, now),
            }),
            final(self)@ == old(self)@.after_status_set(
                params.source@,
                params.text@,
                params.seq,
                params.ttl_ms,
                now,
            ),
    {
        let source = match normalize_status_source(params.source) {
            Ok(source) => source,
            Err(message) => {
                return StatusReply {
                    id,
                    outcome: StatusOutcome::Error { code: "invalid_status_source", message },
                };
            },
        };
        let ttl = match normalize_status_ttl(params.ttl_ms) {
            Ok(ttl) => ttl,
            Err(message) => {
                return StatusReply {
                    id,
                    outcome: StatusOutcome::Error { code: "invalid_status_ttl", message },
                };
            },
        };
        let text = match sanitize_status_text(params.text.as_str()) {
            Some(text) => text,
            None => String::new(),
        };
        assert(text@ =~= sanitized(params.text@));
        if self.state.status_slots.at_capacity_for(source.as_str(), now) {
            return StatusReply {
                id,
                outcome: StatusOutcome::Error {
                    code: "status_slot_limit",
                    message: "the status strip holds at most 32 pushed sources",
                },
            };
        }
        let referenced = self.state.status_strip.references_slot(source.as_str());
        let changed = self.state.status_slots.set(source, text, params.seq, ttl, now);
        if changed && referenced {
            self.request_status_strip_repaint();
        }
        StatusReply { id, outcome: StatusOutcome::Done }
    }

    /// Clear the pushed value of a source.
    pub fn handle_status_clear(&mut self, id: String, params: StatusClearParams, now: Instant) -> (r:
        StatusReply)
        requires
            old(self).wf(),
        ensures
            final(self).wf(),
            r@ == (StatusReplyView {
                id: id@,
                error: match source_fault(params.source@) {
                    Some(message) => Some(("invalid_status_source"@, message)),
                    None => None,
                },
            }),
            final(self)@ == old(self)@.after_status_clear(params.source@, now),
    {
        let source = match normalize_status_source(params.source) {
            Ok(source) => source,
            Err(message) => {
                return StatusReply {
                    id,
                    outcome: StatusOutcome::Error { code: "invalid_status_source", message },
                };
            },
        };
        if self.state.status_slots.clear(source.as_str(), now)
            && self.state.status_strip.references_slot(source.as_str()) {
            self.request_status_strip_repaint();
        }
        StatusReply { id, outcome: StatusOutcome::Done }
    }

    /// Ask for a redraw: something that the strip renders changed.
    pub fn request_status_strip_repaint(&mut self)
        requires
            old(self).wf(),
        ensures
            final(self).wf(),
            final(self)@ == (AppView { repaint: true, ..old(self)@ }),
    {
        self.repaint_requested = true;
    }

    /// Take the pending redraw request.
    pub fn take_repaint_request(&mut self) -> (r: bool)
        requires
            old(self).wf(),
        ensures
            final(self).wf(),
            r == old(self)@.repaint,
            final(self)@ == (AppView { repaint: false, ..old(self)@ }),
    {
        let r = self.repaint_requested;
        self.repaint_requested = false;
        r
    }
}

// --- laws ---------------------------------------------------------------------------

/// The lane stays bounded: no request makes it hold more sources than its
/// ceiling.
pub proof fn law_lane_is_bounded(
    app: AppView,
    source: Seq<char>,
    text: Seq<char>,
    seq: Option<u64>,
    ttl_ms: Option<u64>,
    now: Instant,
)
    requires
        app.slots.slots.dom().finite(),
        app.slots.slots.dom().len() <= MAX_STATUS_SLOT_SOURCES,
    ensures
        app.after_status_set(source, text, seq, ttl_ms, now).slots.slots.dom().finite(),
        app.after_status_set(source, text, seq, ttl_ms, now).slots.slots.dom().len()
            <= MAX_STATUS_SLOT_SOURCES,
        app.after_status_clear(source, now).slots.slots.dom().finite(),
        app.after_status_clear(source, now).slots.slots.dom().len() <= MAX_STATUS_SLOT_SOURCES,
{
    let held = app.slots.slots.dom();
    let room = app.slots.purged(now).slots.dom();
    assert(room.subset_of(held));
    lemma_len_subset(room, held);
    let name = trimmed(source);
    assert(held.remove(name).subset_of(held));
    lemma_len_subset(held.remove(name), held);
    assert(room.contains(name) ==> room.insert(name) =~= room);
}

/// A refused report is answered with an error and leaves every value on display
/// as it was.
pub proof fn law_refused_report_shows_nothing(
    app: AppView,
    source: Seq<char>,
    text: Seq<char>,
    seq: Option<u64>,
    ttl_ms: Option<u64>,
    now: Instant,
    other: Seq<char>,
    later: Instant,
)
    requires
        set_error(app.slots, source, ttl_ms, now) is Some,
        now.nanos <= later.nanos,
    ensures
        app.after_status_set(source, text, seq, ttl_ms, now).slots.shown(other, later)
            == app.slots.shown(other, later),
        app.after_status_set(source, text, seq, ttl_ms, now).repaint == app.repaint,
{
}

/// An accepted report is what its source shows at once, and a later clear
/// removes it. A report is accepted unless it is refused or its number fails to
/// advance the last one; one whose end the clock cannot represent ends at once.
pub proof fn law_accepted_report_is_shown(
    app: AppView,
    source: Seq<char>,
    text: Seq<char>,
    seq: Option<u64>,
    ttl_ms: Option<u64>,
    now: Instant,
    later: Instant,
)
    ensures
        ({
            let name = trimmed(source);
            let set = app.after_status_set(source, text, seq, ttl_ms, now);
            &&& set_error(app.slots, source, ttl_ms, now) is None && app.slots.purged(now).accepts(
                name,
                seq,
            ) && (ttl_span(ttl_ms) matches Some(span) ==> now.plus(span) is Some)
                ==> set.slots.shown(name, now) == Some(sanitized(text))
            &&& source_fault(source) is None ==> set.after_status_clear(source, later).slots.shown(
                name,
                later,
            ) is None
        }),
{
}

/// A redraw is asked for exactly where a rendered value changed, whether by a
/// report that lasts or by a clear.
pub proof fn law_repaint_follows_a_visible_change(
    app: AppView,
    source: Seq<char>,
    text: Seq<char>,
    seq: Option<u64>,
    ttl_ms: Option<u64>,
    now: Instant,
)
    requires
        !app.repaint,
        ttl_span(ttl_ms) matches Some(span) ==> now.plus(span) is Some,
    ensures
        ({
            let name = trimmed(source);
            let set = app.after_status_set(source, text, seq, ttl_ms, now);
            let cleared = app.after_status_clear(source, now);
            &&& set.repaint <==> references(app.strip, name) && set.slots.shown(name, now)
                != app.slots.shown(name, now)
            &&& cleared.repaint <==> references(app.strip, name) && cleared.slots.shown(name, now)
                != app.slots.shown(name, now)
        }),
{
    let name = trimmed(source);
    law_purge_keeps_what_is_shown(app.slots, name, now, now);
    if source_fault(source) is None && ttl_fault(ttl_ms) is None {
        law_reports_follow_the_display(
            app.slots.purged(now),
            name,
            sanitized(text),
            seq,
            ttl_span(ttl_ms),
            now,
        );
    }
    law_reports_follow_the_display(app.slots, name, sanitized(text), None, None, now);
}

/// A character that a source name may have.
pub open spec fn is_name_character(c: char) -> bool {
    ||| 'a' <= c <= 'z'
    ||| 'A' <= c <= 'Z'
    ||| '0' <= c <= '9'
    ||| c == ':'
    ||| c == '.'
    ||| c == '_'
    ||| c == '-'
}

/// A source name is taken exactly where it has 1 to 80 characters, each an ASCII
/// letter, a digit or one of `:._-`; blank space at its ends does not count. Each
/// fault has its own message.
pub proof fn law_source_names(value: Seq<char>)
    ensures
        ({
            let name = trimmed(value);
            let good = forall|i: int| 0 <= i < name.len() ==> is_name_character(#[trigger] name[i]);
            &&& source_fault(value) is None <==> 1 <= name.len() <= 80 && good
            &&& name.len() == 0 ==> source_fault(value) == Some("status source must not be empty"@)
            &&& name.len() > 80 ==> source_fault(value) == Some(
                "status source must be 80 characters or fewer"@,
            )
            &&& 1 <= name.len() <= 80 && !good ==> source_fault(value) == Some(
                "status source may contain only ASCII letters, digits, colon, dot, underscore, and hyphen"@,
            )
        }),
{
    let name = trimmed(value);
    assert forall|c: char| is_name_character(c) == #[trigger] source_char(c) by {}
    if forall|i: int| 0 <= i < name.len() ==> is_name_character(#[trigger] name[i]) {
        assert forall|i: int| 0 <= i < name.len() implies source_char(#[trigger] name[i]) by {
            assert(is_name_character(name[i]));
        }
    } else {
        let i = choose|i: int| 0 <= i < name.len() && !is_name_character(#[trigger] name[i]);
        assert(!source_char(name[i]));
    }
}

/// A time to live counts from one millisecond to a day; a value without one lasts.
pub proof fn law_times_to_live(ms: u64)
    ensures
        ttl_fault(None) is None,
        ttl_span(None) is None,
        ttl_fault(Some(ms)) is None <==> 1 <= ms <= 86_400_000,
        ms == 0 ==> ttl_fault(Some(ms)) == Some("status ttl_ms must be at least 1"@),
        ms > 86_400_000 ==> ttl_fault(Some(ms)) == Some("status ttl_ms must be 86400000 or less"@),
        ttl_span(Some(ms)) matches Some(span) && span.nanos == ms * 1_000_000,
{
}

/// A report is refused for its source first, then for its time to live, then where
/// 32 other sources show something; in any other case it is not.
pub proof fn law_refusals(
    app: AppView,
    source: Seq<char>,
    ttl_ms: Option<u64>,
    now: Instant,
)
    ensures
        ({
            let room = app.slots.purged(now).slots.dom();
            let error = set_error(app.slots, source, ttl_ms, now);
            &&& source_fault(source) is Some ==> error == Some(
                ("invalid_status_source"@, source_fault(source)->0),
            )
            &&& source_fault(source) is None && ttl_fault(ttl_ms) is Some ==> error == Some(
                ("invalid_status_ttl"@, ttl_fault(ttl_ms)->0),
            )
            &&& source_fault(source) is None && ttl_fault(ttl_ms) is None ==> {
                &&& !room.contains(trimmed(source)) && room.len() >= 32 ==> error == Some(
                    ("status_slot_limit"@, "the status strip holds at most 32 pushed sources"@),
                )
                &&& room.contains(trimmed(source)) || room.len() < 32 ==> error is None
            }
            &&& forall|k: Seq<char>| #[trigger]
                room.contains(k) <==> app.slots.shown(k, now) is Some
        }),
{
}

/// What is pushed is what is shown, where it is plain text.
pub proof fn law_pushed_plain_text_is_shown(
    app: AppView,
    source: Seq<char>,
    text: Seq<char>,
    now: Instant,
    later: Instant,
)
    requires
        set_error(app.slots, source, None, now) is None,
        text.len() <= 256,
        forall|i: int|
            0 <= i < text.len() ==> (#[trigger] text[i]) as int >= 0x20 && !(0x7f
                <= text[i] as int <= 0x9f),
        text.len() > 0 ==> !whitespace(text.first()) && !whitespace(text.last()),
    ensures
        app.after_status_set(source, text, None, None, now).slots.shown(trimmed(source), later)
            == Some(text),
        app.after_status_set(source, text, None, None, now).strip == app.strip,
        app.after_status_clear(source, now).slots.shown(trimmed(source), later) is None,
        app.after_status_clear(source, now).strip == app.strip,
{
    law_plain_output_is_kept(text);
}

} // verus!
