//! What crosses the boundary between a session, its model and its frontend:
//! events, transcript messages, tool descriptions and model replies.

use vstd::prelude::*;

use crate::held::{hold, Held};
use crate::text::joined;

verus! {

/// What the harness emits while processing a turn. Frontends render these;
/// nothing else crosses the boundary between session and frontend.
///
/// Every turn ends with exactly one terminal event: [`Event::TurnComplete`]
/// on success or [`Event::TurnFailed`] on failure.
#[derive(Debug, Clone, PartialEq, Eq)]
pub enum Event {
    /// A chunk of assistant text, in order. Render incrementally.
    TokenDelta(String),
    /// A tool invocation is starting.
    ToolCallStarted {
        /// Tool name as registered.
        name: String,
        /// Raw JSON arguments.
        args_json: String,
    },
    /// A tool invocation finished successfully.
    ToolCallFinished {
        /// Tool name as registered.
        name: String,
        /// Raw JSON result.
        result_json: String,
    },
    /// A tool invocation failed (unknown tool or execution error).
    ToolCallFailed {
        /// Tool name as requested.
        name: String,
        /// Human-readable reason.
        error: String,
    },
    /// The turn failed before completing (the model backend errored, say).
    /// Terminal: emitted instead of [`Event::TurnComplete`].
    TurnFailed {
        /// Human-readable reason.
        error: String,
    },
    /// The turn is over; no more events until the next submission.
    TurnComplete,
}

/// What an [`Event`] says.
pub ghost enum EventView {
    /// A chunk of assistant text.
    TokenDelta(Seq<char>),
    /// A tool invocation is starting.
    ToolCallStarted {
        /// Tool name.
        name: Seq<char>,
        /// JSON arguments.
        args_json: Seq<char>,
    },
    /// A tool invocation finished.
    ToolCallFinished {
        /// Tool name.
        name: Seq<char>,
        /// JSON result.
        result_json: Seq<char>,
    },
    /// A tool invocation failed.
    ToolCallFailed {
        /// Tool name.
        name: Seq<char>,
        /// Reason.
        error: Seq<char>,
    },
    /// The turn failed.
    TurnFailed {
        /// Reason.
        error: Seq<char>,
    },
    /// The turn is over.
    TurnComplete,
}

impl View for Event {
    type V = EventView;

    open spec fn view(&self) -> EventView {
        match *self {
            Event::TokenDelta(chunk) => EventView::TokenDelta(chunk@),
            Event::ToolCallStarted { name, args_json } => EventView::ToolCallStarted {
                name: name@,
                args_json: args_json@,
            },
            Event::ToolCallFinished { name, result_json } => EventView::ToolCallFinished {
                name: name@,
                result_json: result_json@,
            },
            Event::ToolCallFailed { name, error } => EventView::ToolCallFailed {
                name: name@,
                error: error@,
            },
            Event::TurnFailed { error } => EventView::TurnFailed { error: error@ },
            Event::TurnComplete => EventView::TurnComplete,
        }
    }
}

/// Whether an event ends a turn.
pub open spec fn is_terminal(event: EventView) -> bool {
    event is TurnFailed || event is TurnComplete
}

/// One entry in a session's conversation transcript.
#[derive(Debug, Clone, PartialEq, Eq)]
pub enum Message {
    /// Text the user submitted.
    User(String),
    /// Text the assistant produced.
    Assistant(String),
    /// A tool invocation made during a turn.
    ToolCall {
        /// Call id correlating the invocation with its outcome (assigned
        /// by the model, or synthesized for manual calls).
        id: String,
        /// Tool name as registered.
        name: String,
        /// Raw JSON arguments.
        args_json: String,
    },
    /// The result of a tool invocation.
    ToolResult {
        /// Call id this result answers.
        id: String,
        /// Tool name as registered.
        name: String,
        /// Raw JSON result.
        result_json: String,
    },
    /// A tool invocation that failed. Every [`Message::ToolCall`] is
    /// followed by exactly one [`Message::ToolResult`] or
    /// [`Message::ToolFailure`], so transcripts always pair calls with
    /// outcomes, and the model sees the error and can recover.
    ToolFailure {
        /// Call id this failure answers.
        id: String,
        /// Tool name as requested.
        name: String,
        /// Human-readable reason.
        error: String,
    },
}

/// What a [`Message`] says.
pub ghost enum MessageView {
    /// Text the user submitted.
    User(Seq<char>),
    /// Text the assistant produced.
    Assistant(Seq<char>),
    /// A tool invocation.
    ToolCall {
        /// Call id.
        id: Seq<char>,
        /// Tool name.
        name: Seq<char>,
        /// JSON arguments.
        args_json: Seq<char>,
    },
    /// A tool result.
    ToolResult {
        /// Call id.
        id: Seq<char>,
        /// Tool name.
        name: Seq<char>,
        /// JSON result.
        result_json: Seq<char>,
    },
    /// A tool failure.
    ToolFailure {
        /// Call id.
        id: Seq<char>,
        /// Tool name.
        name: Seq<char>,
        /// Reason.
        error: Seq<char>,
    },
}

impl View for Message {
    type V = MessageView;

    open spec fn view(&self) -> MessageView {
        match *self {
            Message::User(text) => MessageView::User(text@),
            Message::Assistant(text) => MessageView::Assistant(text@),
            Message::ToolCall { id, name, args_json } => MessageView::ToolCall {
                id: id@,
                name: name@,
                args_json: args_json@,
            },
            Message::ToolResult { id, name, result_json } => MessageView::ToolResult {
                id: id@,
                name: name@,
                result_json: result_json@,
            },
            Message::ToolFailure { id, name, error } => MessageView::ToolFailure {
                id: id@,
                name: name@,
                error: error@,
            },
        }
    }
}

/// What a list of messages says.
pub open spec fn messages_view(messages: Seq<Message>) -> Seq<MessageView> {
    messages.map_values(|message: Message| message@)
}

/// Tool description handed to the model driver, mirroring the registry.
#[derive(Debug, Clone, PartialEq, Eq)]
pub struct ToolSpec {
    /// Tool name as registered.
    pub name: String,
    /// Model-facing description.
    pub description: String,
    /// JSON Schema for the arguments, as a raw JSON string.
    pub parameters_schema: String,
}

/// What a [`ToolSpec`] says.
pub ghost struct ToolSpecView {
    /// Tool name.
    pub name: Seq<char>,
    /// Description.
    pub description: Seq<char>,
    /// JSON Schema.
    pub parameters_schema: Seq<char>,
}

impl View for ToolSpec {
    type V = ToolSpecView;

    open spec fn view(&self) -> ToolSpecView {
        ToolSpecView {
            name: self.name@,
            description: self.description@,
            parameters_schema: self.parameters_schema@,
        }
    }
}

/// What a list of tool descriptions says.
pub open spec fn specs_view(specs: Seq<ToolSpec>) -> Seq<ToolSpecView> {
    specs.map_values(|spec_: ToolSpec| spec_@)
}

/// A tool invocation the model requested.
#[derive(Debug, Clone, PartialEq, Eq)]
pub struct ToolCallRequest {
    /// Call id from the model (or synthesized by the driver).
    pub id: String,
    /// Requested tool name.
    pub name: String,
    /// Raw JSON arguments.
    pub args_json: String,
}

/// What a [`ToolCallRequest`] says.
pub ghost struct CallView {
    /// Call id.
    pub id: Seq<char>,
    /// Tool name.
    pub name: Seq<char>,
    /// JSON arguments.
    pub args_json: Seq<char>,
}

impl View for ToolCallRequest {
    type V = CallView;

    open spec fn view(&self) -> CallView {
        CallView { id: self.id@, name: self.name@, args_json: self.args_json@ }
    }
}

/// What a list of tool invocations says.
pub open spec fn calls_view(calls: Seq<ToolCallRequest>) -> Seq<CallView> {
    calls.map_values(|call: ToolCallRequest| call@)
}

/// One completed model response within a turn.
#[derive(Debug, Clone, PartialEq, Eq)]
pub struct ModelTurn {
    /// Assistant text (may be empty when the model only calls tools).
    pub text: String,
    /// Tool invocations the model requested, in order.
    pub tool_calls: Vec<ToolCallRequest>,
}

/// What a [`ModelTurn`] says.
pub ghost struct TurnView {
    /// Assistant text.
    pub text: Seq<char>,
    /// Tool invocations, in order.
    pub tool_calls: Seq<CallView>,
}

impl View for ModelTurn {
    type V = TurnView;

    open spec fn view(&self) -> TurnView {
        TurnView { text: self.text@, tool_calls: calls_view(self.tool_calls@) }
    }
}

/// Why a model completion failed.
#[derive(Debug, Clone, PartialEq, Eq)]
pub struct ModelError(pub String);

impl ModelError {
    /// The error as one line of text.
    pub fn to_string(&self) -> (line: String)
        ensures
            line@ == self.0@,
    {
        self.0.clone()
    }
}

/// What a model completion came to.
pub type ReplyView = Result<TurnView, Seq<char>>;

/// What the value of a completion says.
pub open spec fn reply_view(reply: Result<ModelTurn, ModelError>) -> ReplyView {
    match reply {
        Ok(turn) => Ok(turn@),
        Err(error) => Err(error.0@),
    }
}

/// One [`EventView::TokenDelta`] for each chunk.
pub open spec fn deltas(chunks: Seq<Seq<char>>) -> Seq<EventView> {
    chunks.map_values(|chunk: Seq<char>| EventView::TokenDelta(chunk))
}

/// Where a frontend takes events, as they occur.
pub trait EventSink {
    /// The events taken so far.
    open spec fn taken(&self) -> Seq<EventView> {
        arbitrary()
    }

    /// Take the next event.
    fn deliver(&mut self, event: &Event)
        ensures
            final(self).taken() == old(self).taken().push(event@),
    ;
}

/// The event stream of a session: hands each event on to a frontend, in
/// order, and keeps the text streamed since the last model call began.
pub struct EventStream {
    sink: Held<Box<dyn EventSink>>,
    streamed: String,
}

impl EventStream {
    /// Every event that the frontend has taken so far.
    pub closed spec fn events(&self) -> Seq<EventView> {
        self.sink.value.taken()
    }

    /// The text streamed since [`EventStream::restart`].
    pub closed spec fn streamed(&self) -> Seq<char> {
        self.streamed@
    }

    /// A stream into a frontend.
    pub fn new(sink: Box<dyn EventSink>) -> (stream: Self)
        ensures
            stream.events() == sink.taken(),
            stream.streamed() == Seq::<char>::empty(),
    {
        let sink = hold(sink);
        EventStream { sink, streamed: String::new() }
    }

    /// Hand on one event.
    pub(crate) fn emit(&mut self, event: Event)
        ensures
            final(self).events() == old(self).events().push(event@),
            final(self).streamed() == old(self).streamed(),
    {
        self.sink.value.deliver(&event);
    }

    /// Stream a chunk of assistant text.
    pub fn token(&mut self, chunk: &str)
        ensures
            final(self).events() == old(self).events().push(EventView::TokenDelta(chunk@)),
            final(self).streamed() == old(self).streamed() + chunk@,
    {
        self.streamed.append(chunk);
        self.emit(Event::TokenDelta(chunk.to_owned()));
    }

    /// Forget the streamed text, before a model call.
    pub(crate) fn restart(&mut self)
        ensures
            final(self).events() == old(self).events(),
            final(self).streamed() == Seq::<char>::empty(),
    {
        self.streamed = String::new();
    }

    /// The text streamed since [`EventStream::restart`].
    pub(crate) fn partial(&self) -> (text: String)
        ensures
            text@ == self.streamed(),
    {
        self.streamed.clone()
    }
}

/// Drives a language model for one completion over the transcript.
///
/// `on_token` streams assistant text as it arrives; the returned
/// [`ModelTurn`] is the complete response including tool calls.
pub trait ModelDriver: Send {
    /// Whether the model, given the prompt, the transcript and the tools, may
    /// stream `chunks` and come to `reply`. Of a model that says no more,
    /// anything may come.
    open spec fn may_complete(
        &self,
        system_prompt: Seq<char>,
        transcript: Seq<MessageView>,
        tools: Seq<ToolSpecView>,
        chunks: Seq<Seq<char>>,
        reply: ReplyView,
    ) -> bool {
        true
    }

    /// Produce the next assistant response for the conversation.
    fn complete(
        &self,
        system_prompt: &str,
        transcript: &[Message],
        tools: &[ToolSpec],
        on_token: &mut EventStream,
    ) -> (reply: Result<ModelTurn, ModelError>)
        ensures
            exists|chunks: Seq<Seq<char>>| #[trigger]
                self.may_complete(
                    system_prompt@,
                    messages_view(transcript@),
                    specs_view(tools@),
                    chunks,
                    reply_view(reply),
                ) && final(on_token).events() == old(on_token).events() + deltas(chunks)
                    && final(on_token).streamed() == old(on_token).streamed() + joined(chunks),
    ;
}

/// A message means what it holds, each part in its place.
pub proof fn law_messages_mean_what_they_hold(message: Message)
    ensures
        message matches Message::User(text) ==> message@ == MessageView::User(text@),
        message matches Message::Assistant(text) ==> message@ == MessageView::Assistant(text@),
        message matches Message::ToolCall { id, name, args_json } ==> message@ == (
        MessageView::ToolCall { id: id@, name: name@, args_json: args_json@ }),
        message matches Message::ToolResult { id, name, result_json } ==> message@ == (
        MessageView::ToolResult { id: id@, name: name@, result_json: result_json@ }),
        message matches Message::ToolFailure { id, name, error } ==> message@ == (
        MessageView::ToolFailure { id: id@, name: name@, error: error@ }),
{
}

/// An event means what it holds, each part in its place; a turn ends with a
/// failure or with its completion, and with nothing else.
pub proof fn law_events_mean_what_they_hold(event: Event)
    ensures
        event matches Event::TokenDelta(chunk) ==> event@ == EventView::TokenDelta(chunk@),
        event matches Event::ToolCallStarted { name, args_json } ==> event@ == (
        EventView::ToolCallStarted { name: name@, args_json: args_json@ }),
        event matches Event::ToolCallFinished { name, result_json } ==> event@ == (
        EventView::ToolCallFinished { name: name@, result_json: result_json@ }),
        event matches Event::ToolCallFailed { name, error } ==> event@ == (
        EventView::ToolCallFailed { name: name@, error: error@ }),
        event matches Event::TurnFailed { error } ==> event@ == (EventView::TurnFailed {
            error: error@,
        }),
        is_terminal(event@) <==> event is TurnFailed || event is TurnComplete,
{
}

}
