//! The normalized event that all sources produce.

use vstd::prelude::*;

use crate::order::{opt_view, views, Ranked};
use crate::text::copy_texts;
use crate::time::{not_after, Timestamp};

verus! {

/// What an agent did.
#[derive(Debug, Clone, Copy, PartialEq, Eq, Structural)]
pub enum EventType {
    ToolCall,
    ToolResult,
    UserMessage,
    AgentMessage,
    Error,
}

/// The normalized event type that all sources produce.
/// Captures the shape of agent actions, not content.
#[derive(Debug)]
pub struct BehavioralEvent {
    pub timestamp: Timestamp,
    pub session_id: String,
    pub agent_id: String,
    pub event_type: EventType,
    pub tool_name: Option<String>,
    /// Parameter names only, never values.
    pub param_keys: Vec<String>,
    /// File paths, URLs, hostnames, table names.
    pub resource_ids: Vec<String>,
    pub data_in_bytes: u64,
    pub data_out_bytes: u64,
    pub duration_ms: u64,
    pub token_count: Option<u64>,
    /// Position within the current session.
    pub sequence_position: u32,
    pub trace_id: Option<String>,
    pub span_id: Option<String>,
    pub provider: Option<String>,
    pub model: Option<String>,
}

/// The model of a `BehavioralEvent`.
#[verifier::ext_equal]
pub struct EventView {
    pub timestamp: Timestamp,
    pub session_id: Seq<char>,
    pub agent_id: Seq<char>,
    pub event_type: EventType,
    pub tool_name: Option<Seq<char>>,
    pub param_keys: Seq<Seq<char>>,
    pub resource_ids: Seq<Seq<char>>,
    pub data_in_bytes: u64,
    pub data_out_bytes: u64,
    pub duration_ms: u64,
    pub token_count: Option<u64>,
    pub sequence_position: u32,
    pub trace_id: Option<Seq<char>>,
    pub span_id: Option<Seq<char>>,
    pub provider: Option<Seq<char>>,
    pub model: Option<Seq<char>>,
}

impl View for BehavioralEvent {
    type V = EventView;

    open spec fn view(&self) -> EventView {
        EventView {
            timestamp: self.timestamp,
            session_id: self.session_id@,
            agent_id: self.agent_id@,
            event_type: self.event_type,
            tool_name: opt_view(self.tool_name),
            param_keys: views(self.param_keys@),
            resource_ids: views(self.resource_ids@),
            data_in_bytes: self.data_in_bytes,
            data_out_bytes: self.data_out_bytes,
            duration_ms: self.duration_ms,
            token_count: self.token_count,
            sequence_position: self.sequence_position,
            trace_id: opt_view(self.trace_id),
            span_id: opt_view(self.span_id),
            provider: opt_view(self.provider),
            model: opt_view(self.model),
        }
    }
}

impl EventView {
    /// The bytes that went in and out.
    pub open spec fn volume(self) -> int {
        self.data_in_bytes + self.data_out_bytes
    }
}

impl Clone for BehavioralEvent {
    fn clone(&self) -> (r: Self)
        ensures
            r@ == self@,
    {
        BehavioralEvent {
            timestamp: self.timestamp,
            session_id: self.session_id.clone(),
            agent_id: self.agent_id.clone(),
            event_type: self.event_type,
            tool_name: self.tool_name.clone(),
            param_keys: copy_texts(&self.param_keys),
            resource_ids: copy_texts(&self.resource_ids),
            data_in_bytes: self.data_in_bytes,
            data_out_bytes: self.data_out_bytes,
            duration_ms: self.duration_ms,
            token_count: self.token_count,
            sequence_position: self.sequence_position,
            trace_id: self.trace_id.clone(),
            span_id: self.span_id.clone(),
            provider: self.provider.clone(),
            model: self.model.clone(),
        }
    }
}

/// Events stand in the order of their timestamps.
impl Ranked for BehavioralEvent {
    open spec fn ranks(a: EventView, b: EventView) -> bool {
        not_after(a.timestamp, b.timestamp)
    }

    fn at_most(&self, other: &Self) -> (r: bool) {
        self.timestamp.at_most(&other.timestamp)
    }
}

} // verus!
