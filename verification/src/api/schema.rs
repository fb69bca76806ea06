//! Requests that write the status strip's push lane, and what plugins offer.

use vstd::prelude::*;

use crate::text::{copy_opt, opt_text, push_text};

verus! {

/// Push a value into the status strip. It renders wherever a matching
/// `#{slot:NAME}` token appears in `status_right`. The last writer wins by
/// `seq`; `ttl_ms` ends the value.
#[derive(Debug, Clone, PartialEq, Eq)]
pub struct StatusSetParams {
    pub source: String,
    pub text: String,
    pub seq: Option<u64>,
    pub ttl_ms: Option<u64>,
}

/// Clear the pushed value of a source, which empties any `#{slot:NAME}` bound
/// to it.
#[derive(Debug, Clone, PartialEq, Eq)]
pub struct StatusClearParams {
    pub source: String,
}

/// An action that an installed plugin offers.
#[derive(Debug, PartialEq, Eq)]
pub struct PluginActionInfo {
    pub plugin_id: String,
    pub action_id: String,
    pub title: String,
    pub description: Option<String>,
}

/// A plugin action, with its texts as characters.
pub struct PluginActionView {
    pub plugin_id: Seq<char>,
    pub action_id: Seq<char>,
    pub title: Seq<char>,
    pub description: Option<Seq<char>>,
}

impl View for PluginActionInfo {
    type V = PluginActionView;

    open spec fn view(&self) -> PluginActionView {
        PluginActionView {
            plugin_id: self.plugin_id@,
            action_id: self.action_id@,
            title: self.title@,
            description: opt_text(self.description),
        }
    }
}

impl PluginActionView {
    /// Plugin and action in one id.
    pub open spec fn full_id(self) -> Seq<char> {
        self.plugin_id + "."@ + self.action_id
    }
}

impl Clone for PluginActionInfo {
    fn clone(&self) -> (r: PluginActionInfo)
        ensures
            r == *self,
    {
        PluginActionInfo {
            plugin_id: self.plugin_id.clone(),
            action_id: self.action_id.clone(),
            title: self.title.clone(),
            description: copy_opt(&self.description),
        }
    }
}

impl PluginActionInfo {
    /// Plugin and action in one id, such as `myplugin.dosomething`.
    pub fn qualified_id(&self) -> (r: String)
        ensures
            r@ == self@.full_id(),
    {
        let mut id = self.plugin_id.clone();
        push_text(&mut id, ".");
        push_text(&mut id, self.action_id.as_str());
        id
    }
}

/// The answer to a request: the request's id with success or an error.
#[derive(Debug, PartialEq, Eq)]
pub struct StatusReply {
    pub id: String,
    pub outcome: StatusOutcome,
}

#[derive(Debug, PartialEq, Eq)]
pub enum StatusOutcome {
    Done,
    Error { code: &'static str, message: &'static str },
}

/// An answer, with its texts as characters.
pub struct StatusReplyView {
    pub id: Seq<char>,
    /// Code and message of an error.
    pub error: Option<(Seq<char>, Seq<char>)>,
}

impl View for StatusReply {
    type V = StatusReplyView;

    open spec fn view(&self) -> StatusReplyView {
        StatusReplyView {
            id: self.id@,
            error: match self.outcome {
                StatusOutcome::Done => None,
                StatusOutcome::Error { code, message } => Some((code@, message@)),
            },
        }
    }
}

} // verus!
