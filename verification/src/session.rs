//! The agent loop and the session state.
//!
//! No terminal, no network and no game facts here: the model lives behind
//! [`ModelDriver`], the tools behind [`ToolRegistry`], and everything that a
//! frontend sees goes through an [`EventStream`].

use vstd::prelude::*;

use crate::event::{
    calls_view, deltas, is_terminal, messages_view, reply_view, specs_view, CallView, Event,
    EventStream, EventView, Message, MessageView, ModelDriver, ModelError, ModelTurn, ReplyView,
    ToolCallRequest, ToolSpec, ToolSpecView,
};
use crate::text;
use crate::text::joined;
use crate::tool::{answer_of, Registered, ToolRegistry};

verus! {

/// Upper bound on rounds of tool calls within one turn, unless a session is
/// given another, so that a model which keeps requesting tools cannot loop
/// forever.
pub const MAX_TOOL_ROUNDS: usize = 8;

/// What a session without a model answers.
pub const NO_MODEL_NOTICE: &'static str =
    "No model is configured; chat is disabled. Tool calls work — create a config to enable the model.";

/// What a tool call came to: its JSON result, or the line that says why not.
pub type Outcome = Result<Seq<char>, Seq<char>>;

/// The outcome that a value stands for.
pub open spec fn outcome_view(outcome: Result<String, String>) -> Outcome {
    match outcome {
        Ok(result_json) => Ok(result_json@),
        Err(error) => Err(error@),
    }
}

/// What happened in one round of a turn.
pub ghost struct Round {
    /// The text that the model streamed, chunk by chunk.
    pub chunks: Seq<Seq<char>>,
    /// What its completion came to.
    pub reply: ReplyView,
    /// What the tool calls came to, where they were run.
    pub outcomes: Seq<Outcome>,
}

/// The two messages that one tool call leaves in the transcript.
pub open spec fn call_messages(call: CallView, outcome: Outcome) -> Seq<MessageView> {
    seq![
        MessageView::ToolCall { id: call.id, name: call.name, args_json: call.args_json },
        match outcome {
            Ok(result_json) => MessageView::ToolResult { id: call.id, name: call.name, result_json },
            Err(error) => MessageView::ToolFailure { id: call.id, name: call.name, error },
        },
    ]
}

/// The two events of one tool call.
pub open spec fn call_events(call: CallView, outcome: Outcome) -> Seq<EventView> {
    seq![
        EventView::ToolCallStarted { name: call.name, args_json: call.args_json },
        match outcome {
            Ok(result_json) => EventView::ToolCallFinished { name: call.name, result_json },
            Err(error) => EventView::ToolCallFailed { name: call.name, error },
        },
    ]
}

/// The messages of the first `n` tool calls, one call after the other.
pub open spec fn calls_messages(
    calls: Seq<CallView>,
    outcomes: Seq<Outcome>,
    n: nat,
) -> Seq<MessageView>
    decreases n,
{
    if n == 0 {
        seq![]
    } else {
        calls_messages(calls, outcomes, (n - 1) as nat) + call_messages(
            calls[n - 1],
            outcomes[n - 1],
        )
    }
}

/// The events of the first `n` tool calls, one call after the other.
pub open spec fn calls_events(calls: Seq<CallView>, outcomes: Seq<Outcome>, n: nat) -> Seq<EventView>
    decreases n,
{
    if n == 0 {
        seq![]
    } else {
        calls_events(calls, outcomes, (n - 1) as nat) + call_events(calls[n - 1], outcomes[n - 1])
    }
}

/// The text that a turn over its round limit fails with.
pub open spec fn limit_text(limit: nat) -> Seq<char> {
    "model exceeded the limit of "@ + text::decimal(limit) + " tool rounds in one turn"@
}

/// The event with which a reply ends the turn; `None` where its tool calls
/// are to be run. `round` counts the rounds of tool calls before it.
pub open spec fn ending(streamed: Seq<char>, reply: ReplyView, round: nat, limit: nat) -> Option<
    EventView,
> {
    match reply {
        Err(error) => Some(EventView::TurnFailed { error }),
        Ok(turn) => if turn.tool_calls.len() == 0 {
            if turn.text.len() == 0 && streamed.len() == 0 {
                Some(EventView::TurnFailed { error: "model returned an empty response"@ })
            } else {
                Some(EventView::TurnComplete)
            }
        } else if round == limit {
            Some(EventView::TurnFailed { error: limit_text(limit) })
        } else {
            None
        },
    }
}

/// What a reply adds to the transcript by itself: the assistant's text, and
/// of a reply that failed what was already streamed of it.
pub open spec fn reply_messages(streamed: Seq<char>, reply: ReplyView) -> Seq<MessageView> {
    let said = match reply {
        Err(_) => streamed,
        Ok(turn) => turn.text,
    };
    if said.len() == 0 {
        seq![]
    } else {
        seq![MessageView::Assistant(said)]
    }
}

/// The tool calls that a reply requests.
pub open spec fn reply_calls(reply: ReplyView) -> Seq<CallView> {
    match reply {
        Err(_) => seq![],
        Ok(turn) => turn.tool_calls,
    }
}

/// How a round ends the turn, if it does.
pub open spec fn round_ending(round: Round, index: nat, limit: nat) -> Option<EventView> {
    ending(joined(round.chunks), round.reply, index, limit)
}

/// What a round adds to the transcript.
pub open spec fn round_messages(round: Round, index: nat, limit: nat) -> Seq<MessageView> {
    let calls = reply_calls(round.reply);
    reply_messages(joined(round.chunks), round.reply) + match round_ending(round, index, limit) {
        Some(_) => seq![],
        None => calls_messages(calls, round.outcomes, calls.len()),
    }
}

/// What a round emits.
pub open spec fn round_events(round: Round, index: nat, limit: nat) -> Seq<EventView> {
    let calls = reply_calls(round.reply);
    deltas(round.chunks) + match round_ending(round, index, limit) {
        Some(event) => seq![event],
        None => calls_events(calls, round.outcomes, calls.len()),
    }
}

/// What the rounds of a turn add to the transcript.
pub open spec fn turn_messages(rounds: Seq<Round>, limit: nat) -> Seq<MessageView>
    decreases rounds.len(),
{
    if rounds.len() == 0 {
        seq![]
    } else {
        turn_messages(rounds.drop_last(), limit) + round_messages(
            rounds.last(),
            (rounds.len() - 1) as nat,
            limit,
        )
    }
}

/// What the rounds of a turn emit.
pub open spec fn turn_events(rounds: Seq<Round>, limit: nat) -> Seq<EventView>
    decreases rounds.len(),
{
    if rounds.len() == 0 {
        seq![]
    } else {
        turn_events(rounds.drop_last(), limit) + round_events(
            rounds.last(),
            (rounds.len() - 1) as nat,
            limit,
        )
    }
}

/// The descriptions of the tools of a registry, as the model gets them.
pub open spec fn registry_specs(registry: ToolRegistry) -> Seq<ToolSpecView> {
    registry.tools().map_values(
        |entry: Registered|
            ToolSpecView {
                name: entry.tool.tool_name(),
                description: entry.tool.tool_description(),
                parameters_schema: entry.tool.tool_schema(),
            },
    )
}

/// Whether the tool calls of a round may have come to its outcomes.
pub open spec fn calls_may_yield(
    registry: ToolRegistry,
    calls: Seq<CallView>,
    outcomes: Seq<Outcome>,
) -> bool {
    &&& outcomes.len() == calls.len()
    &&& forall|j: int|
        0 <= j < calls.len() ==> registry.may_yield(
            calls[j].name,
            calls[j].args_json,
            #[trigger] outcomes[j],
        )
}

impl Session {
    /// Whether round `k` of a turn that began with the transcript `start` can
    /// have gone as `rounds` says: the model was given the prompt, everything
    /// said and done before the round, and the tools; and the calls that it
    /// requested were run, in order, unless the round ended the turn.
    pub open spec fn may_play(&self, start: Seq<MessageView>, rounds: Seq<Round>, k: int) -> bool {
        &&& self.driver() is Some
        &&& self.driver()->0.may_complete(
            self.prompt(),
            start + turn_messages(rounds.take(k), self.limit()),
            registry_specs(self.tools()),
            rounds[k].chunks,
            rounds[k].reply,
        )
        &&& round_ending(rounds[k], k as nat, self.limit()) is None ==> calls_may_yield(
            self.tools(),
            reply_calls(rounds[k].reply),
            rounds[k].outcomes,
        )
    }

    /// Whether `rounds` is a whole turn from the transcript `start`: every
    /// round may have gone so, and the last one, and no other, ends the turn.
    pub open spec fn is_turn(&self, start: Seq<MessageView>, rounds: Seq<Round>) -> bool {
        &&& rounds.len() > 0
        &&& round_ending(rounds.last(), (rounds.len() - 1) as nat, self.limit()) is Some
        &&& forall|k: int|
            0 <= k < rounds.len() - 1 ==> round_ending(
                #[trigger] rounds[k],
                k as nat,
                self.limit(),
            ) is None
        &&& forall|k: int| 0 <= k < rounds.len() ==> #[trigger] self.may_play(start, rounds, k)
    }
}

/// A conversation with the harness: transcript plus the tools available to
/// it, and optionally a model driving the agent loop. One session per
/// conversation; frontends own the lifetime.
pub struct Session {
    registry: ToolRegistry,
    transcript: Vec<Message>,
    model: Option<Box<dyn ModelDriver>>,
    system_prompt: String,
    manual_calls: u64,
    max_tool_rounds: usize,
}

impl Session {
    /// The tools of the session.
    pub closed spec fn tools(&self) -> ToolRegistry {
        self.registry
    }

    /// Everything said and done so far, in order.
    pub closed spec fn said(&self) -> Seq<MessageView> {
        messages_view(self.transcript@)
    }

    /// The model that drives the session, where there is one.
    pub closed spec fn driver(&self) -> Option<Box<dyn ModelDriver>> {
        self.model
    }

    /// The system prompt.
    pub closed spec fn prompt(&self) -> Seq<char> {
        self.system_prompt@
    }

    /// How many manual tool calls were made.
    pub closed spec fn manual_count(&self) -> nat {
        self.manual_calls as nat
    }

    /// The limit on rounds of tool calls in one turn.
    pub closed spec fn limit(&self) -> nat {
        self.max_tool_rounds as nat
    }

    /// Whether `other` differs in nothing but the transcript and the count of
    /// manual calls.
    pub open spec fn same_setup(&self, other: Session) -> bool {
        &&& self.tools() == other.tools()
        &&& self.driver() == other.driver()
        &&& self.prompt() == other.prompt()
        &&& self.limit() == other.limit()
    }

    /// Session over a set of tools, without a model (tool-only mode).
    pub fn new(registry: ToolRegistry) -> (session: Self)
        ensures
            session.tools() == registry,
            session.said() == Seq::<MessageView>::empty(),
            session.driver() is None,
            session.manual_count() == 0,
            session.limit() == MAX_TOOL_ROUNDS,
    {
        let session = Session {
            registry,
            transcript: Vec::new(),
            model: None,
            system_prompt: String::new(),
            manual_calls: 0,
            max_tool_rounds: MAX_TOOL_ROUNDS,
        };
        assert(session.said() =~= Seq::<MessageView>::empty());
        session
    }

    /// Session with a model driving the agent loop.
    pub fn with_model(
        registry: ToolRegistry,
        model: Box<dyn ModelDriver>,
        system_prompt: String,
    ) -> (session: Self)
        ensures
            session.tools() == registry,
            session.said() == Seq::<MessageView>::empty(),
            session.driver() == Some(model),
            session.prompt() == system_prompt@,
            session.manual_count() == 0,
            session.limit() == MAX_TOOL_ROUNDS,
    {
        let model = present(model);
        let session = Session {
            registry,
            transcript: Vec::new(),
            model,
            system_prompt,
            manual_calls: 0,
            max_tool_rounds: MAX_TOOL_ROUNDS,
        };
        assert(session.said() =~= Seq::<MessageView>::empty());
        session
    }
}

/// The message that records what a tool call came to.
pub fn outcome_message(id: &str, name: &str, outcome: &Result<String, String>) -> (message: Message)
    ensures
        message@ == call_messages(
            (CallView { id: id@, name: name@, args_json: seq![] }),
            outcome_view(*outcome),
        )[1],
{
    match outcome {
        Ok(result_json) => Message::ToolResult {
            id: id.to_owned(),
            name: name.to_owned(),
            result_json: result_json.clone(),
        },
        Err(error) => Message::ToolFailure {
            id: id.to_owned(),
            name: name.to_owned(),
            error: error.clone(),
        },
    }
}

/// The event that tells what a tool call came to.
pub fn outcome_event(name: &str, outcome: &Result<String, String>) -> (event: Event)
    ensures
        event@ == call_events(
            (CallView { id: seq![], name: name@, args_json: seq![] }),
            outcome_view(*outcome),
        )[1],
{
    match outcome {
        Ok(result_json) => Event::ToolCallFinished {
            name: name.to_owned(),
            result_json: result_json.clone(),
        },
        Err(error) => Event::ToolCallFailed { name: name.to_owned(), error: error.clone() },
    }
}

/// The message that a reply adds to the transcript by itself: the assistant's
/// text, and of a reply that failed what was already streamed of it.
pub fn reply_message(streamed: &str, reply: &Result<ModelTurn, ModelError>) -> (message: Option<
    Message,
>)
    ensures
        match message {
            Some(message) => reply_messages(streamed@, reply_view(*reply)) == seq![message@],
            None => reply_messages(streamed@, reply_view(*reply)) == Seq::<MessageView>::empty(),
        },
{
    let said: String = match reply {
        Err(_) => streamed.to_owned(),
        Ok(turn) => turn.text.clone(),
    };
    if said.as_str().is_empty() {
        None
    } else {
        Some(Message::Assistant(said))
    }
}

/// The event with which a reply ends the turn; `None` where its tool calls
/// are to be run. `round` counts the rounds of tool calls before it.
pub fn reply_ending(
    streamed: &str,
    reply: &Result<ModelTurn, ModelError>,
    round: usize,
    limit: usize,
) -> (event: Option<Event>)
    ensures
        match event {
            Some(event) => ending(streamed@, reply_view(*reply), round as nat, limit as nat)
                == Some(event@),
            None => ending(streamed@, reply_view(*reply), round as nat, limit as nat) is None,
        },
{
    match reply {
        Err(error) => Some(Event::TurnFailed { error: error.to_string() }),
        Ok(turn) => {
            assert(turn@.tool_calls.len() == turn.tool_calls@.len());
            if turn.tool_calls.is_empty() {
                if turn.text.as_str().is_empty() && streamed.is_empty() {
                    // Neither text nor tool calls: surface it instead of
                    // silently completing a blank turn.
                    Some(
                        Event::TurnFailed { error: "model returned an empty response".to_owned() },
                    )
                } else {
                    Some(Event::TurnComplete)
                }
            } else if round == limit {
                // Calls that the model can never see answered are not run.
                let mut error = "model exceeded the limit of ".to_owned();
                error.append(text::decimal_text(limit as u64).as_str());
                error.append(" tool rounds in one turn");
                Some(Event::TurnFailed { error })
            } else {
                None
            }
        },
    }
}

impl Session {
    /// The tools this session can use.
    pub fn registry(&self) -> (registry: &ToolRegistry)
        ensures
            *registry == self.tools(),
    {
        &self.registry
    }

    /// Everything said and done so far, in order.
    pub fn transcript(&self) -> (transcript: &[Message])
        ensures
            messages_view(transcript@) == self.said(),
    {
        self.transcript.as_slice()
    }

    /// Whether a model is driving this session.
    pub fn has_model(&self) -> (driven: bool)
        ensures
            driven == self.driver() is Some,
    {
        self.model.is_some()
    }

    /// Set the limit on rounds of tool calls in one turn.
    pub fn set_max_tool_rounds(&mut self, rounds: usize)
        ensures
            final(self).limit() == rounds,
            final(self).tools() == old(self).tools(),
            final(self).said() == old(self).said(),
            final(self).driver() == old(self).driver(),
            final(self).prompt() == old(self).prompt(),
            final(self).manual_count() == old(self).manual_count(),
    {
        self.max_tool_rounds = rounds;
    }

    /// The descriptions of the tools, as the model gets them.
    fn tool_specs(&self) -> (specs: Vec<ToolSpec>)
        ensures
            specs_view(specs@) == registry_specs(self.tools()),
    {
        let tools = self.registry.iter();
        let mut specs: Vec<ToolSpec> = Vec::new();
        let mut i: usize = 0;
        while i < tools.len()
            invariant
                tools@ == self.tools().tools(),
                i <= tools@.len(),
                specs@.len() == i,
                specs_view(specs@) =~= registry_specs(self.tools()).take(i as int),
            decreases tools@.len() - i,
        {
            let tool = &tools[i].tool;
            specs.push(
                ToolSpec {
                    name: tool.name().to_owned(),
                    description: tool.description().to_owned(),
                    parameters_schema: tool.parameters_schema().to_owned(),
                },
            );
            i += 1;
        }
        assert(specs_view(specs@) =~= registry_specs(self.tools()));
        specs
    }

    /// Add a message to the transcript.
    fn record(&mut self, message: Message)
        ensures
            final(self).same_setup(*old(self)),
            final(self).said() == old(self).said().push(message@),
            final(self).manual_count() == old(self).manual_count(),
    {
        self.transcript.push(message);
        assert(self.said() =~= old(self).said().push(message@));
    }

    /// Execute one tool call, recording it and its outcome in the
    /// transcript and emitting the corresponding events. Never emits a
    /// terminal event: callers own turn termination.
    fn run_tool(&mut self, id: &str, name: &str, args_json: &str, stream: &mut EventStream) -> (ran:
        Ghost<Outcome>)
        ensures
            final(self).same_setup(*old(self)),
            final(self).manual_count() == old(self).manual_count(),
            old(self).tools().may_yield(name@, args_json@, ran@),
            final(self).said() == old(self).said() + call_messages(
                (CallView { id: id@, name: name@, args_json: args_json@ }),
                ran@,
            ),
            final(stream).events() == old(stream).events() + call_events(
                (CallView { id: id@, name: name@, args_json: args_json@ }),
                ran@,
            ),
    {
        stream.emit(
            Event::ToolCallStarted { name: name.to_owned(), args_json: args_json.to_owned() },
        );
        self.record(
            Message::ToolCall {
                id: id.to_owned(),
                name: name.to_owned(),
                args_json: args_json.to_owned(),
            },
        );
        let outcome: Result<String, String> = match self.registry.get(name) {
            None => {
                let mut error = "unknown tool `".to_owned();
                error.append(name);
                error.append("`");
                Err(error)
            },
            Some(tool) => {
                let answer = tool.execute(args_json);
                proof {
                    assert(tool.may_answer(args_json@, answer_of(answer)));
                    let i = choose|i: int|
                        0 <= i < self.tools().tools().len() && (
                        #[trigger] self.tools().tools()[i]).name@ == name@
                            && self.tools().tools()[i].tool == *tool;
                    assert(self.tools().tools()[i].tool.may_answer(args_json@, answer_of(answer)));
                }
                match answer {
                    Ok(result_json) => Ok(result_json),
                    Err(error) => Err(error.to_string()),
                }
            },
        };
        let ghost ran = outcome_view(outcome);
        self.record(outcome_message(id, name, &outcome));
        stream.emit(outcome_event(name, &outcome));
        proof {
            let call = CallView { id: id@, name: name@, args_json: args_json@ };
            assert(self.said() =~= old(self).said() + call_messages(call, ran));
            assert(stream.events() =~= old(stream).events() + call_events(call, ran));
        }
        Ghost(ran)
    }
}

/// What the first calls leave behind does not depend on later outcomes.
proof fn lemma_calls_prefix(
    calls: Seq<CallView>,
    outcomes: Seq<Outcome>,
    outcome: Outcome,
    n: nat,
)
    requires
        n <= outcomes.len(),
    ensures
        calls_messages(calls, outcomes.push(outcome), n) == calls_messages(calls, outcomes, n),
        calls_events(calls, outcomes.push(outcome), n) == calls_events(calls, outcomes, n),
    decreases n,
{
    if n > 0 {
        lemma_calls_prefix(calls, outcomes, outcome, (n - 1) as nat);
    }
}

impl Session {
    /// Execute tool calls one after the other.
    fn run_tools(&mut self, calls: &Vec<ToolCallRequest>, stream: &mut EventStream) -> (ran: Ghost<
        Seq<Outcome>,
    >)
        ensures
            final(self).same_setup(*old(self)),
            final(self).manual_count() == old(self).manual_count(),
            calls_may_yield(old(self).tools(), calls_view(calls@), ran@),
            final(self).said() == old(self).said() + calls_messages(
                calls_view(calls@),
                ran@,
                calls@.len(),
            ),
            final(stream).events() == old(stream).events() + calls_events(
                calls_view(calls@),
                ran@,
                calls@.len(),
            ),
    {
        let ghost views = calls_view(calls@);
        let ghost mut outcomes: Seq<Outcome> = seq![];
        let mut i: usize = 0;
        assert(self.said() =~= old(self).said() + calls_messages(views, outcomes, 0));
        assert(stream.events() =~= old(stream).events() + calls_events(views, outcomes, 0));
        while i < calls.len()
            invariant
                i <= calls@.len(),
                views == calls_view(calls@),
                outcomes.len() == i,
                self.same_setup(*old(self)),
                self.manual_count() == old(self).manual_count(),
                forall|j: int|
                    0 <= j < i ==> old(self).tools().may_yield(
                        views[j].name,
                        views[j].args_json,
                        #[trigger] outcomes[j],
                    ),
                self.said() == old(self).said() + calls_messages(views, outcomes, i as nat),
                stream.events() == old(stream).events() + calls_events(views, outcomes, i as nat),
            decreases calls@.len() - i,
        {
            let call = &calls[i];
            let ghost said = self.said();
            let ghost events = stream.events();
            let Ghost(ran) = self.run_tool(
                call.id.as_str(),
                call.name.as_str(),
                call.args_json.as_str(),
                stream,
            );
            proof {
                let before = outcomes;
                assert(views[i as int] == call@);
                lemma_calls_prefix(views, before, ran, i as nat);
                outcomes = before.push(ran);
                assert(self.said() =~= old(self).said() + calls_messages(
                    views,
                    outcomes,
                    (i + 1) as nat,
                ));
                assert(stream.events() =~= old(stream).events() + calls_events(
                    views,
                    outcomes,
                    (i + 1) as nat,
                ));
            }
            i += 1;
        }
        Ghost(outcomes)
    }

    /// Stream the fixed notice of a session without a model.
    fn answer_without_model(&mut self, stream: &mut EventStream)
        ensures
            final(self).same_setup(*old(self)),
            final(self).manual_count() == old(self).manual_count(),
            final(self).said() == old(self).said().push(MessageView::Assistant(NO_MODEL_NOTICE@)),
            final(stream).events() == old(stream).events() + deltas(
                text::pieces(NO_MODEL_NOTICE@, ' '),
            ) + seq![EventView::TurnComplete],
    {
        let chunks = text::split_inclusive(NO_MODEL_NOTICE, ' ');
        let ghost texts = text::texts(chunks@);
        let mut i: usize = 0;
        assert(stream.events() =~= old(stream).events() + deltas(texts.take(0)));
        while i < chunks.len()
            invariant
                i <= chunks@.len(),
                texts == text::texts(chunks@),
                stream.events() == old(stream).events() + deltas(texts.take(i as int)),
            decreases chunks@.len() - i,
        {
            stream.token(chunks[i].as_str());
            assert(stream.events() =~= old(stream).events() + deltas(texts.take(i + 1)));
            i += 1;
        }
        assert(texts.take(i as int) =~= texts);
        self.record(Message::Assistant(NO_MODEL_NOTICE.to_owned()));
        stream.emit(Event::TurnComplete);
        assert(stream.events() =~= old(stream).events() + deltas(texts)
            + seq![EventView::TurnComplete]);
    }

    /// Ask the model for the next reply, with everything said so far.
    fn ask_model(&self, specs: &Vec<ToolSpec>, stream: &mut EventStream) -> (asked: (
        Result<ModelTurn, ModelError>,
        String,
        Ghost<Seq<Seq<char>>>,
    ))
        requires
            self.driver() is Some,
        ensures
            self.driver()->0.may_complete(
                self.prompt(),
                self.said(),
                specs_view(specs@),
                asked.2@,
                reply_view(asked.0),
            ),
            asked.1@ == joined(asked.2@),
            final(stream).events() == old(stream).events() + deltas(asked.2@),
    {
        // Streamed text is kept so that a failure halfway still records what
        // the user already saw: the model must remember it too.
        stream.restart();
        let ghost before = stream.events();
        let model = self.model.as_ref().unwrap();
        let reply = model.complete(
            self.system_prompt.as_str(),
            self.transcript.as_slice(),
            specs.as_slice(),
            stream,
        );
        let ghost chunks = choose|chunks: Seq<Seq<char>>| #[trigger]
            self.driver()->0.may_complete(
                self.prompt(),
                self.said(),
                specs_view(specs@),
                chunks,
                reply_view(reply),
            ) && stream.events() == before + deltas(chunks) && stream.streamed() == Seq::<
                char,
            >::empty() + joined(chunks);
        let partial = stream.partial();
        assert(partial@ =~= joined(chunks));
        (reply, partial, Ghost(chunks))
    }

    /// Run the agent loop from the transcript as it stands.
    fn converse(&mut self, stream: &mut EventStream) -> (played: Ghost<Seq<Round>>)
        requires
            old(self).driver() is Some,
        ensures
            final(self).same_setup(*old(self)),
            final(self).manual_count() == old(self).manual_count(),
            old(self).is_turn(old(self).said(), played@),
            final(self).said() == old(self).said() + turn_messages(played@, old(self).limit()),
            final(stream).events() == old(stream).events() + turn_events(
                played@,
                old(self).limit(),
            ),
    {
        let ghost start = self.said();
        let ghost limit = self.limit();
        let specs = self.tool_specs();
        let max_rounds: usize = self.max_tool_rounds;
        let mut round: usize = 0;
        let ghost mut rounds: Seq<Round> = seq![];
        assert(self.said() =~= start + turn_messages(rounds, limit));
        assert(stream.events() =~= old(stream).events() + turn_events(rounds, limit));
        loop
            invariant
                round <= max_rounds,
                limit == max_rounds,
                limit == old(self).limit(),
                start == old(self).said(),
                old(self).driver() is Some,
                self.same_setup(*old(self)),
                self.manual_count() == old(self).manual_count(),
                specs_view(specs@) == registry_specs(old(self).tools()),
                rounds.len() == round,
                forall|k: int|
                    0 <= k < round ==> round_ending(#[trigger] rounds[k], k as nat, limit) is None,
                forall|k: int|
                    0 <= k < round ==> #[trigger] old(self).may_play(start, rounds, k),
                self.said() == start + turn_messages(rounds, limit),
                stream.events() == old(stream).events() + turn_events(rounds, limit),
            decreases max_rounds - round,
        {
            let ghost said = self.said();
            let ghost events = stream.events();
            let (reply, partial, Ghost(chunks)) = self.ask_model(&specs, stream);
            let ghost view = reply_view(reply);
            if let Some(message) = reply_message(partial.as_str(), &reply) {
                self.record(message);
            }
            assert(self.said() =~= said + reply_messages(joined(chunks), view));
            if let Some(event) = reply_ending(partial.as_str(), &reply, round, max_rounds) {
                stream.emit(event);
                proof {
                    let last = Round { chunks, reply: view, outcomes: seq![] };
                    let all = rounds.push(last);
                    lemma_rounds_extend(*old(self), start, rounds, last);
                    assert forall|k: int| 0 <= k < all.len() implies #[trigger] old(self).may_play(
                        start,
                        all,
                        k,
                    ) by {
                        if k < rounds.len() {
                            assert(old(self).may_play(start, rounds, k));
                        }
                    }
                    assert(self.said() =~= start + turn_messages(all, limit));
                    assert(stream.events() =~= old(stream).events() + turn_events(all, limit));
                    rounds = all;
                }
                return Ghost(rounds);
            }
            if let Ok(turn) = reply {
                let Ghost(outcomes) = self.run_tools(&turn.tool_calls, stream);
                proof {
                    let next = Round { chunks, reply: view, outcomes };
                    let all = rounds.push(next);
                    lemma_rounds_extend(*old(self), start, rounds, next);
                    assert forall|k: int| 0 <= k < all.len() implies #[trigger] old(self).may_play(
                        start,
                        all,
                        k,
                    ) by {
                        if k < rounds.len() {
                            assert(old(self).may_play(start, rounds, k));
                        }
                    }
                    assert(self.said() =~= start + turn_messages(all, limit));
                    assert(stream.events() =~= old(stream).events() + turn_events(all, limit));
                    rounds = all;
                }
            }
            round += 1;
        }
    }

    /// Submit one user turn. Events go into `stream` as they occur;
    /// the turn ends with exactly one terminal event ([`Event::TurnComplete`]
    /// or [`Event::TurnFailed`]).
    ///
    /// With a model attached, this runs the agent loop: the model streams
    /// text and may request tool calls, whose results are fed back until it
    /// answers without tools (bounded by the round limit). Without
    /// a model, a fixed notice is streamed instead.
    pub fn submit(&mut self, input: &str, stream: &mut EventStream)
        ensures
            final(self).same_setup(*old(self)),
            final(self).manual_count() == old(self).manual_count(),
            calls_paired(old(self).said()) ==> calls_paired(final(self).said()),
            ends_once(final(stream).events().skip(old(stream).events().len() as int)),
            old(self).driver() is None ==> {
                &&& final(self).said() == old(self).said() + seq![
                    MessageView::User(input@),
                    MessageView::Assistant(NO_MODEL_NOTICE@),
                ]
                &&& final(stream).events() == old(stream).events() + deltas(
                    text::pieces(NO_MODEL_NOTICE@, ' '),
                ) + seq![EventView::TurnComplete]
            },
            old(self).driver() is Some ==> exists|rounds: Seq<Round>| #[trigger]
                old(self).is_turn(old(self).said().push(MessageView::User(input@)), rounds)
                    && final(self).said() == old(self).said().push(MessageView::User(input@))
                    + turn_messages(rounds, old(self).limit()) && final(stream).events() == old(
                    stream,
                ).events() + turn_events(rounds, old(self).limit()),
    {
        let ghost start = self.said().push(MessageView::User(input@));
        self.record(Message::User(input.to_owned()));
        if self.model.is_none() {
            self.answer_without_model(stream);
            assert(self.said() =~= old(self).said() + seq![
                MessageView::User(input@),
                MessageView::Assistant(NO_MODEL_NOTICE@),
            ]);
            proof {
                let added = deltas(text::pieces(NO_MODEL_NOTICE@, ' ')) + seq![
                    EventView::TurnComplete,
                ];
                assert(stream.events().skip(old(stream).events().len() as int) =~= added);
                assert(added.drop_last() =~= deltas(text::pieces(NO_MODEL_NOTICE@, ' ')));
                if calls_paired(old(self).said()) {
                    law_paired_transcripts_append(
                        old(self).said(),
                        seq![
                            MessageView::User(input@),
                            MessageView::Assistant(NO_MODEL_NOTICE@),
                        ],
                    );
                }
            }
            return ;
        }
        let ghost before = *self;
        let Ghost(rounds) = self.converse(stream);
        proof {
            assert forall|k: int| 0 <= k < rounds.len() implies #[trigger] old(self).may_play(
                start,
                rounds,
                k,
            ) by {
                assert(before.may_play(start, rounds, k));
            }
            assert(old(self).is_turn(start, rounds));
            let limit = old(self).limit();
            law_turn_ends_once(*old(self), start, rounds);
            assert(stream.events().skip(old(stream).events().len() as int) =~= turn_events(
                rounds,
                limit,
            ));
            law_turn_pairs_calls(*old(self), start, rounds);
            if calls_paired(old(self).said()) {
                law_paired_transcripts_append(old(self).said(), seq![MessageView::User(input@)]);
                assert(start =~= old(self).said() + seq![MessageView::User(input@)]);
                law_paired_transcripts_append(start, turn_messages(rounds, limit));
            }
        }
    }

    /// Invoke a registered tool directly, outside a model turn. Used by
    /// frontends for manual tool runs; it leaves the same transcript entries
    /// and events as a call that the model requested.
    ///
    /// The turn ends with [`Event::TurnComplete`]. A failed tool call is
    /// recorded in the transcript as [`Message::ToolFailure`] and still
    /// completes the turn.
    pub fn call_tool(&mut self, name: &str, args_json: &str, stream: &mut EventStream)
        requires
            old(self).manual_count() < u64::MAX,
        ensures
            final(self).same_setup(*old(self)),
            final(self).manual_count() == old(self).manual_count() + 1,
            calls_paired(old(self).said()) ==> calls_paired(final(self).said()),
            ends_once(final(stream).events().skip(old(stream).events().len() as int)),
            exists|outcome: Outcome| #[trigger]
                old(self).tools().may_yield(name@, args_json@, outcome) && final(self).said()
                    == old(self).said() + call_messages(
                    manual_call(old(self).manual_count(), name@, args_json@),
                    outcome,
                ) && final(stream).events() == old(stream).events() + call_events(
                    manual_call(old(self).manual_count(), name@, args_json@),
                    outcome,
                ) + seq![EventView::TurnComplete],
    {
        self.manual_calls += 1;
        let mut id = "manual-".to_owned();
        id.append(text::decimal_text(self.manual_calls).as_str());
        let Ghost(outcome) = self.run_tool(id.as_str(), name, args_json, stream);
        stream.emit(Event::TurnComplete);
        proof {
            assert(old(self).tools().may_yield(name@, args_json@, outcome));
            let call = manual_call(old(self).manual_count(), name@, args_json@);
            assert(stream.events() =~= old(stream).events() + call_events(call, outcome) + seq![
                EventView::TurnComplete,
            ]);
            assert(stream.events().skip(old(stream).events().len() as int) =~= call_events(
                call,
                outcome,
            ) + seq![EventView::TurnComplete]);
            if calls_paired(old(self).said()) {
                law_paired_transcripts_append(old(self).said(), call_messages(call, outcome));
            }
        }
    }
}

/// The call that a manual invocation makes after `count` others.
pub open spec fn manual_call(count: nat, name: Seq<char>, args_json: Seq<char>) -> CallView {
    CallView { id: "manual-"@ + text::decimal(count + 1), name, args_json }
}

/// Adding a round keeps what was known of the rounds before it.
proof fn lemma_rounds_extend(
    session: Session,
    start: Seq<MessageView>,
    rounds: Seq<Round>,
    next: Round,
)
    ensures
        rounds.push(next).drop_last() == rounds,
        rounds.push(next).last() == next,
        rounds.push(next).take(rounds.len() as int) == rounds,
        forall|k: int|
            0 <= k < rounds.len() && #[trigger] session.may_play(start, rounds, k)
                ==> session.may_play(start, rounds.push(next), k),
{
    let all = rounds.push(next);
    assert(all.drop_last() =~= rounds);
    assert(all.take(rounds.len() as int) =~= rounds);
    assert forall|k: int|
        0 <= k < rounds.len() && #[trigger] session.may_play(start, rounds, k) implies session.may_play(
        start,
        all,
        k,
    ) by {
        assert(all.take(k) =~= rounds.take(k));
    }
}

/// Whether `events` ends with a terminal event and holds no other.
pub open spec fn ends_once(events: Seq<EventView>) -> bool {
    &&& events.len() > 0
    &&& is_terminal(events.last())
    &&& no_terminal(events.drop_last())
}

/// Whether `events` holds no terminal event.
pub open spec fn no_terminal(events: Seq<EventView>) -> bool {
    forall|i: int| 0 <= i < events.len() ==> !is_terminal(#[trigger] events[i])
}

/// Whether `outcome` is the outcome of the call `call`.
pub open spec fn answers(call: MessageView, outcome: MessageView) -> bool {
    match (call, outcome) {
        (
            MessageView::ToolCall { id, name, .. },
            MessageView::ToolResult { id: answered, name: by, .. },
        ) => id == answered && name == by,
        (
            MessageView::ToolCall { id, name, .. },
            MessageView::ToolFailure { id: answered, name: by, .. },
        ) => id == answered && name == by,
        _ => false,
    }
}

/// Whether a message tells the outcome of a tool call.
pub open spec fn is_outcome(message: MessageView) -> bool {
    message is ToolResult || message is ToolFailure
}

/// Whether every tool call is followed at once by its outcome, and every
/// outcome stands right behind its call.
pub open spec fn calls_paired(messages: Seq<MessageView>) -> bool {
    &&& forall|i: int|
        0 <= i < messages.len() && (#[trigger] messages[i]) is ToolCall ==> i + 1 < messages.len()
            && answers(messages[i], messages[i + 1])
    &&& forall|i: int|
        0 <= i < messages.len() && is_outcome(#[trigger] messages[i]) ==> i > 0 && answers(
            messages[i - 1],
            messages[i],
        )
}

/// Paired transcripts stay paired when one is put behind the other.
pub proof fn law_paired_transcripts_append(first: Seq<MessageView>, second: Seq<MessageView>)
    requires
        calls_paired(first),
        calls_paired(second),
    ensures
        calls_paired(first + second),
{
    let all = first + second;
    assert forall|i: int| 0 <= i < all.len() && (#[trigger] all[i]) is ToolCall implies i + 1
        < all.len() && answers(all[i], all[i + 1]) by {
        if i < first.len() {
            assert(first[i] is ToolCall);
        } else {
            assert(second[i - first.len()] is ToolCall);
        }
    }
    assert forall|i: int| 0 <= i < all.len() && is_outcome(#[trigger] all[i]) implies i > 0
        && answers(all[i - 1], all[i]) by {
        if i < first.len() {
            assert(is_outcome(first[i]));
        } else {
            assert(is_outcome(second[i - first.len()]));
        }
    }
}

proof fn lemma_calls_paired(calls: Seq<CallView>, outcomes: Seq<Outcome>, n: nat)
    ensures
        calls_paired(calls_messages(calls, outcomes, n)),
        no_terminal(calls_events(calls, outcomes, n)),
    decreases n,
{
    if n > 0 {
        lemma_calls_paired(calls, outcomes, (n - 1) as nat);
        law_paired_transcripts_append(
            calls_messages(calls, outcomes, (n - 1) as nat),
            call_messages(calls[n - 1], outcomes[n - 1]),
        );
    }
}

proof fn lemma_rounds_paired(rounds: Seq<Round>, limit: nat)
    ensures
        calls_paired(turn_messages(rounds, limit)),
    decreases rounds.len(),
{
    if rounds.len() > 0 {
        let last = rounds.last();
        let index = (rounds.len() - 1) as nat;
        let calls = reply_calls(last.reply);
        lemma_rounds_paired(rounds.drop_last(), limit);
        lemma_calls_paired(calls, last.outcomes, calls.len());
        law_paired_transcripts_append(
            reply_messages(joined(last.chunks), last.reply),
            match round_ending(last, index, limit) {
                Some(_) => seq![],
                None => calls_messages(calls, last.outcomes, calls.len()),
            },
        );
        law_paired_transcripts_append(
            turn_messages(rounds.drop_last(), limit),
            round_messages(last, index, limit),
        );
    }
}

/// Within a turn every tool call is followed at once by exactly one outcome,
/// with its id and name, and there is no outcome without a call.
pub proof fn law_turn_pairs_calls(session: Session, start: Seq<MessageView>, rounds: Seq<Round>)
    requires
        session.is_turn(start, rounds),
    ensures
        calls_paired(turn_messages(rounds, session.limit())),
{
    lemma_rounds_paired(rounds, session.limit());
}

proof fn lemma_open_rounds_emit_no_terminal(rounds: Seq<Round>, limit: nat)
    requires
        forall|k: int|
            0 <= k < rounds.len() ==> round_ending(#[trigger] rounds[k], k as nat, limit) is None,
    ensures
        no_terminal(turn_events(rounds, limit)),
    decreases rounds.len(),
{
    if rounds.len() > 0 {
        let last = rounds.last();
        let calls = reply_calls(last.reply);
        assert forall|k: int| 0 <= k < rounds.drop_last().len() implies round_ending(
            #[trigger] rounds.drop_last()[k],
            k as nat,
            limit,
        ) is None by {
            assert(rounds.drop_last()[k] == rounds[k]);
        }
        lemma_open_rounds_emit_no_terminal(rounds.drop_last(), limit);
        lemma_calls_paired(calls, last.outcomes, calls.len());
        assert(round_ending(rounds[rounds.len() - 1], (rounds.len() - 1) as nat, limit) is None);
    }
}

/// Every turn ends with exactly one terminal event: the last one.
pub proof fn law_turn_ends_once(session: Session, start: Seq<MessageView>, rounds: Seq<Round>)
    requires
        session.is_turn(start, rounds),
    ensures
        ends_once(turn_events(rounds, session.limit())),
{
    let limit = session.limit();
    let before = rounds.drop_last();
    assert forall|k: int| 0 <= k < before.len() implies round_ending(
        #[trigger] before[k],
        k as nat,
        limit,
    ) is None by {
        assert(before[k] == rounds[k]);
    }
    lemma_open_rounds_emit_no_terminal(before, limit);
    let events = turn_events(rounds, limit);
    assert(events.drop_last() =~= turn_events(before, limit) + deltas(rounds.last().chunks));
}

/// A turn runs at most as many rounds of tool calls as the limit allows: all
/// rounds but the last, which runs none.
pub proof fn law_tool_rounds_are_limited(
    session: Session,
    start: Seq<MessageView>,
    rounds: Seq<Round>,
)
    requires
        session.is_turn(start, rounds),
    ensures
        rounds.len() - 1 <= session.limit(),
        round_messages(rounds.last(), (rounds.len() - 1) as nat, session.limit())
            == reply_messages(joined(rounds.last().chunks), rounds.last().reply),
{
    let limit = session.limit();
    if rounds.len() - 1 > limit {
        assert(round_ending(rounds[limit as int], limit, limit) is None);
    }
    assert(round_messages(rounds.last(), (rounds.len() - 1) as nat, limit) =~= reply_messages(
        joined(rounds.last().chunks),
        rounds.last().reply,
    ));
}

/// When the model fails halfway, the turn fails with its error, and what was
/// already streamed of its answer is the last thing in the transcript.
pub proof fn law_partial_text_is_kept(
    session: Session,
    start: Seq<MessageView>,
    rounds: Seq<Round>,
)
    requires
        session.is_turn(start, rounds),
        rounds.last().reply is Err,
        joined(rounds.last().chunks).len() > 0,
    ensures
        turn_messages(rounds, session.limit()).last() == MessageView::Assistant(
            joined(rounds.last().chunks),
        ),
        turn_events(rounds, session.limit()).last() == (EventView::TurnFailed {
            error: rounds.last().reply->Err_0,
        }),
{
    law_tool_rounds_are_limited(session, start, rounds);
}

/// A model that asks for tools once more when the limit is reached gets none
/// of them run, and the turn fails.
pub proof fn law_calls_over_the_limit_are_not_run(
    session: Session,
    start: Seq<MessageView>,
    rounds: Seq<Round>,
)
    requires
        session.is_turn(start, rounds),
        rounds.len() - 1 == session.limit(),
        reply_calls(rounds.last().reply).len() > 0,
    ensures
        turn_events(rounds, session.limit()) == turn_events(rounds.drop_last(), session.limit())
            + deltas(rounds.last().chunks) + seq![
            EventView::TurnFailed { error: limit_text(session.limit()) },
        ],
{
    assert(turn_events(rounds, session.limit()) =~= turn_events(
        rounds.drop_last(),
        session.limit(),
    ) + deltas(rounds.last().chunks) + seq![
        EventView::TurnFailed { error: limit_text(session.limit()) },
    ]);
}

/// `value`, as one that is there.
fn present<T>(value: T) -> (option: Option<T>)
    ensures
        option == Some(value),
{
    Some(value)
}

/// A call is recorded with its id, its name and its arguments, and what came
/// of it under the same id and name: a result as it is, a failure as its
/// error. Both are shown as events, the call first.
pub proof fn law_calls_are_recorded(call: CallView, outcome: Outcome)
    ensures
        call_messages(call, outcome).len() == 2,
        call_messages(call, outcome)[0] == (MessageView::ToolCall {
            id: call.id,
            name: call.name,
            args_json: call.args_json,
        }),
        outcome matches Ok(json) ==> call_messages(call, outcome)[1] == (MessageView::ToolResult {
            id: call.id,
            name: call.name,
            result_json: json,
        }),
        outcome matches Err(error) ==> call_messages(call, outcome)[1] == (
        MessageView::ToolFailure { id: call.id, name: call.name, error }),
        call_events(call, outcome).len() == 2,
        call_events(call, outcome)[0] == (EventView::ToolCallStarted {
            name: call.name,
            args_json: call.args_json,
        }),
        outcome matches Ok(json) ==> call_events(call, outcome)[1] == (
        EventView::ToolCallFinished { name: call.name, result_json: json }),
        outcome matches Err(error) ==> call_events(call, outcome)[1] == (
        EventView::ToolCallFailed { name: call.name, error }),
{
}

/// The calls of a round are run and recorded one after the other, in the order
/// in which they were requested, each with its own outcome.
pub proof fn law_calls_are_recorded_in_order(
    calls: Seq<CallView>,
    outcomes: Seq<Outcome>,
    n: nat,
    j: int,
)
    requires
        0 <= j < n <= calls.len(),
        outcomes.len() == calls.len(),
    ensures
        calls_messages(calls, outcomes, n).len() == 2 * n,
        calls_messages(calls, outcomes, n).subrange(2 * j, 2 * j + 2) == call_messages(
            calls[j],
            outcomes[j],
        ),
        calls_events(calls, outcomes, n).len() == 2 * n,
        calls_events(calls, outcomes, n).subrange(2 * j, 2 * j + 2) == call_events(
            calls[j],
            outcomes[j],
        ),
    decreases n,
{
    lemma_calls_len(calls, outcomes, n);
    lemma_calls_len(calls, outcomes, (n - 1) as nat);
    let messages = calls_messages(calls, outcomes, n);
    let events = calls_events(calls, outcomes, n);
    if j < n - 1 {
        law_calls_are_recorded_in_order(calls, outcomes, (n - 1) as nat, j);
        assert(messages.subrange(2 * j, 2 * j + 2) =~= calls_messages(
            calls,
            outcomes,
            (n - 1) as nat,
        ).subrange(2 * j, 2 * j + 2));
        assert(events.subrange(2 * j, 2 * j + 2) =~= calls_events(
            calls,
            outcomes,
            (n - 1) as nat,
        ).subrange(2 * j, 2 * j + 2));
    } else {
        assert(messages.subrange(2 * j, 2 * j + 2) =~= call_messages(calls[j], outcomes[j]));
        assert(events.subrange(2 * j, 2 * j + 2) =~= call_events(calls[j], outcomes[j]));
    }
}

/// Every call makes two entries.
proof fn lemma_calls_len(calls: Seq<CallView>, outcomes: Seq<Outcome>, n: nat)
    ensures
        calls_messages(calls, outcomes, n).len() == 2 * n,
        calls_events(calls, outcomes, n).len() == 2 * n,
    decreases n,
{
    if n > 0 {
        lemma_calls_len(calls, outcomes, (n - 1) as nat);
    }
}

/// What the model streams is shown chunk by chunk, in order and unchanged, in
/// front of everything else of its round.
pub proof fn law_chunks_are_shown_as_they_come(round: Round, index: nat, limit: nat, i: int)
    requires
        0 <= i < round.chunks.len(),
    ensures
        round_events(round, index, limit).len() >= round.chunks.len(),
        round_events(round, index, limit)[i] == EventView::TokenDelta(round.chunks[i]),
{
}

/// What the model answered is the next entry of the transcript, where it said
/// anything: its own text, or, where it failed halfway, what it had streamed.
pub proof fn law_answers_are_recorded(streamed: Seq<char>, reply: ReplyView)
    ensures
        ({
            let said = if reply is Ok {
                reply->Ok_0.text
            } else {
                streamed
            };
            &&& said.len() > 0 ==> reply_messages(streamed, reply) == seq![
                MessageView::Assistant(said),
            ]
            &&& said.len() == 0 ==> reply_messages(streamed, reply).len() == 0
        }),
{
}

/// How a round ends the turn: with the model's error where it failed; with
/// success where it asks for no tool and said something; with a failure where
/// it said nothing at all, or asks for tools once the limit is reached. In all
/// other cases the turn goes on.
pub proof fn law_turns_end_as_the_model_answers(
    streamed: Seq<char>,
    reply: ReplyView,
    round: nat,
    limit: nat,
)
    ensures
        reply matches Err(error) ==> ending(streamed, reply, round, limit) == Some(
            EventView::TurnFailed { error },
        ),
        reply matches Ok(turn) ==> {
            let end = ending(streamed, reply, round, limit);
            &&& end == Some(EventView::TurnComplete) <==> turn.tool_calls.len() == 0 && (
            turn.text.len() > 0 || streamed.len() > 0)
            &&& end is None <==> turn.tool_calls.len() > 0 && round != limit
            &&& turn.tool_calls.len() == 0 && turn.text.len() == 0 && streamed.len() == 0 ==> end
                == Some(EventView::TurnFailed { error: "model returned an empty response"@ })
            &&& turn.tool_calls.len() > 0 && round == limit ==> end == Some(
                EventView::TurnFailed {
                    error: "model exceeded the limit of "@ + text::decimal(limit)
                        + " tool rounds in one turn"@,
                },
            )
        },
{
}

/// The model is offered every tool of the session, in its order, with its own
/// name, description and schema.
pub proof fn law_every_tool_is_offered(registry: ToolRegistry, i: int)
    requires
        0 <= i < registry.tools().len(),
    ensures
        registry_specs(registry).len() == registry.tools().len(),
        registry_specs(registry)[i].name == registry.tools()[i].tool.tool_name(),
        registry_specs(registry)[i].description == registry.tools()[i].tool.tool_description(),
        registry_specs(registry)[i].parameters_schema == registry.tools()[i].tool.tool_schema(),
{
}

/// Nothing said or done in a turn is taken back: what the first rounds
/// recorded and showed stays in front of what the others add.
pub proof fn law_rounds_only_add(rounds: Seq<Round>, limit: nat, k: int)
    requires
        0 <= k <= rounds.len(),
    ensures
        ({
            let before = turn_messages(rounds.take(k), limit);
            let after = turn_messages(rounds, limit);
            before.len() <= after.len() && after.take(before.len() as int) == before
        }),
        ({
            let before = turn_events(rounds.take(k), limit);
            let after = turn_events(rounds, limit);
            before.len() <= after.len() && after.take(before.len() as int) == before
        }),
    decreases rounds.len(),
{
    let messages = turn_messages(rounds, limit);
    let events = turn_events(rounds, limit);
    if k == rounds.len() {
        assert(rounds.take(k) =~= rounds);
        assert(messages.take(messages.len() as int) =~= messages);
        assert(events.take(events.len() as int) =~= events);
    } else {
        let shorter = rounds.drop_last();
        law_rounds_only_add(shorter, limit, k);
        assert(shorter.take(k) =~= rounds.take(k));
        let before = turn_messages(rounds.take(k), limit);
        assert(messages.take(before.len() as int) =~= turn_messages(shorter, limit).take(
            before.len() as int,
        ));
        let shown = turn_events(rounds.take(k), limit);
        assert(events.take(shown.len() as int) =~= turn_events(shorter, limit).take(
            shown.len() as int,
        ));
    }
}

/// Manual calls have ids of their own: they count up, and no two are alike.
pub proof fn law_manual_calls_have_their_own_ids(
    count: nat,
    other: nat,
    name: Seq<char>,
    args_json: Seq<char>,
)
    ensures
        manual_call(count, name, args_json).id == "manual-"@ + text::decimal(count + 1),
        manual_call(count, name, args_json).name == name,
        manual_call(count, name, args_json).args_json == args_json,
        count != other ==> manual_call(count, name, args_json).id != manual_call(
            other,
            name,
            args_json,
        ).id,
{
    if count != other {
        let one = manual_call(count, name, args_json).id;
        let two = manual_call(other, name, args_json).id;
        let head = "manual-"@.len() as int;
        assert(one.skip(head) =~= text::decimal(count + 1));
        assert(two.skip(head) =~= text::decimal(other + 1));
        text::law_decimals_differ(count + 1, other + 1);
    }
}

/// In every round the model is given the prompt, everything said and done
/// before the round, and the tools; and unless the round ends the turn, each
/// call that it requested is run, with its own name and arguments.
pub proof fn law_the_model_sees_everything_before(
    session: Session,
    start: Seq<MessageView>,
    rounds: Seq<Round>,
    k: int,
)
    requires
        session.is_turn(start, rounds),
        0 <= k < rounds.len(),
    ensures
        session.driver() is Some,
        session.driver()->0.may_complete(
            session.prompt(),
            start + turn_messages(rounds.take(k), session.limit()),
            registry_specs(session.tools()),
            rounds[k].chunks,
            rounds[k].reply,
        ),
        k < rounds.len() - 1 ==> rounds[k].reply is Ok && rounds[k].outcomes.len()
            == rounds[k].reply->Ok_0.tool_calls.len(),
        k < rounds.len() - 1 ==> forall|j: int|
            0 <= j < rounds[k].outcomes.len() ==> session.tools().may_yield(
                rounds[k].reply->Ok_0.tool_calls[j].name,
                rounds[k].reply->Ok_0.tool_calls[j].args_json,
                #[trigger] rounds[k].outcomes[j],
            ),
{
    assert(session.may_play(start, rounds, k));
    if k < rounds.len() - 1 {
        assert(round_ending(rounds[k], k as nat, session.limit()) is None);
    }
}

/// A round that does not end the turn records what the model said and then its
/// calls with their outcomes; one that does records what the model said alone.
pub proof fn law_rounds_record_what_was_said_and_done(round: Round, index: nat, limit: nat)
    ensures
        ({
            let said = reply_messages(joined(round.chunks), round.reply);
            &&& round_ending(round, index, limit) is Some ==> round_messages(round, index, limit)
                == said
            &&& round_ending(round, index, limit) is Some ==> round_events(round, index, limit)
                == deltas(round.chunks).push(round_ending(round, index, limit)->0)
            &&& round_ending(round, index, limit) is None ==> {
                let calls = round.reply->Ok_0.tool_calls;
                &&& round.reply is Ok
                &&& round_messages(round, index, limit) == said + calls_messages(
                    calls,
                    round.outcomes,
                    calls.len(),
                )
                &&& round_events(round, index, limit) == deltas(round.chunks) + calls_events(
                    calls,
                    round.outcomes,
                    calls.len(),
                )
            }
        }),
{
    let said = reply_messages(joined(round.chunks), round.reply);
    if round_ending(round, index, limit) is Some {
        assert(round_messages(round, index, limit) =~= said);
        assert(round_events(round, index, limit) =~= deltas(round.chunks).push(
            round_ending(round, index, limit)->0,
        ));
    }
}

/// A session keeps its setup where it has the same tools, the same model, the
/// same prompt and the same limit.
pub proof fn law_setups_are_the_same_in_every_part(session: Session, other: Session)
    ensures
        session.same_setup(session),
        session.same_setup(other) ==> {
            &&& session.tools() == other.tools()
            &&& session.driver() == other.driver()
            &&& session.prompt() == other.prompt()
            &&& session.limit() == other.limit()
        },
{
}

}
