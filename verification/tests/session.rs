use std::cell::RefCell;
use std::collections::VecDeque;
use std::rc::Rc;

use exile_harness::event::{
    Event, EventSink, EventStream, Message, ModelDriver, ModelError, ModelTurn, ToolCallRequest,
    ToolSpec,
};
use exile_harness::session::{
    outcome_event, outcome_message, reply_ending, reply_message, Session, MAX_TOOL_ROUNDS,
    NO_MODEL_NOTICE,
};
use exile_harness::tool::{Tool, ToolError, ToolRegistry};

struct Upper;

impl Tool for Upper {
    fn name(&self) -> &'static str {
        "upper"
    }

    fn description(&self) -> &'static str {
        "Uppercases the raw argument string."
    }

    fn parameters_schema(&self) -> &'static str {
        r#"{"type":"object"}"#
    }

    fn execute(&self, args_json: &str) -> Result<String, ToolError> {
        Ok(args_json.to_uppercase())
    }
}

struct Failing;

impl Tool for Failing {
    fn name(&self) -> &'static str {
        "failing"
    }

    fn description(&self) -> &'static str {
        "Always fails."
    }

    fn parameters_schema(&self) -> &'static str {
        r#"{"type":"object"}"#
    }

    fn execute(&self, _args_json: &str) -> Result<String, ToolError> {
        Err(ToolError::Failed("intentional".to_owned()))
    }
}

fn upper_registry() -> ToolRegistry {
    let mut registry = ToolRegistry::new();
    registry.register(Box::new(Upper)).expect("register");
    registry
}

struct Collect(Rc<RefCell<Vec<Event>>>);

impl EventSink for Collect {
    fn deliver(&mut self, event: &Event) {
        self.0.borrow_mut().push(event.clone());
    }
}

fn collect_events(run: impl FnOnce(&mut EventStream)) -> Vec<Event> {
    let events = Rc::new(RefCell::new(Vec::new()));
    let mut stream = EventStream::new(Box::new(Collect(Rc::clone(&events))));
    run(&mut stream);
    let collected = events.borrow().clone();
    collected
}

/// Model returning pre-scripted turns; streams each turn's text first, like a
/// real driver. Records how long the transcript was at each call.
struct ScriptedModel {
    turns: RefCell<VecDeque<Result<ModelTurn, ModelError>>>,
}

impl ScriptedModel {
    fn new(turns: Vec<Result<ModelTurn, ModelError>>) -> Self {
        Self {
            turns: RefCell::new(turns.into()),
        }
    }
}

impl ModelDriver for ScriptedModel {
    fn complete(
        &self,
        _system_prompt: &str,
        _transcript: &[Message],
        _tools: &[ToolSpec],
        on_token: &mut EventStream,
    ) -> Result<ModelTurn, ModelError> {
        let turn = self
            .turns
            .borrow_mut()
            .pop_front()
            .expect("script exhausted");
        if let Ok(turn) = &turn {
            if !turn.text.is_empty() {
                on_token.token(&turn.text);
            }
        }
        turn
    }
}

fn text_turn(text: &str) -> ModelTurn {
    ModelTurn {
        text: text.to_owned(),
        tool_calls: Vec::new(),
    }
}

fn tool_turn(id: &str, name: &str, args: &str) -> ModelTurn {
    ModelTurn {
        text: String::new(),
        tool_calls: vec![ToolCallRequest {
            id: id.to_owned(),
            name: name.to_owned(),
            args_json: args.to_owned(),
        }],
    }
}

#[test]
fn submit_without_model_streams_notice() {
    let mut session = Session::new(upper_registry());
    let events = collect_events(|stream| session.submit("hello", stream));

    assert!(matches!(events.first(), Some(Event::TokenDelta(_))));
    assert_eq!(events.last(), Some(&Event::TurnComplete));
    assert!(!session.has_model());
    assert!(matches!(
        session.transcript().last(),
        Some(Message::Assistant(_))
    ));
}

#[test]
fn submit_with_model_text_only() {
    let model = ScriptedModel::new(vec![Ok(text_turn("the answer"))]);
    let mut session = Session::with_model(upper_registry(), Box::new(model), "system".to_owned());
    let events = collect_events(|stream| session.submit("question", stream));

    assert_eq!(
        events,
        vec![
            Event::TokenDelta("the answer".to_owned()),
            Event::TurnComplete,
        ]
    );
    assert!(matches!(
        session.transcript(),
        [Message::User(_), Message::Assistant(text)] if text == "the answer"
    ));
}

#[test]
fn submit_runs_tool_round_trip() {
    let model = ScriptedModel::new(vec![
        Ok(tool_turn("call-1", "upper", r#"{"a":1}"#)),
        Ok(text_turn("done")),
    ]);
    let mut session = Session::with_model(upper_registry(), Box::new(model), "system".to_owned());
    let events = collect_events(|stream| session.submit("go", stream));

    assert_eq!(
        events,
        vec![
            Event::ToolCallStarted {
                name: "upper".to_owned(),
                args_json: r#"{"a":1}"#.to_owned(),
            },
            Event::ToolCallFinished {
                name: "upper".to_owned(),
                result_json: r#"{"A":1}"#.to_owned(),
            },
            Event::TokenDelta("done".to_owned()),
            Event::TurnComplete,
        ]
    );
    assert!(matches!(
        session.transcript(),
        [
            Message::User(_),
            Message::ToolCall { id, .. },
            Message::ToolResult { id: rid, .. },
            Message::Assistant(_),
        ] if id == "call-1" && rid == "call-1"
    ));
}

#[test]
fn submit_feeds_tool_failure_back_to_model() {
    let model = ScriptedModel::new(vec![
        Ok(tool_turn("call-1", "nope", "{}")),
        Ok(text_turn("recovered")),
    ]);
    let mut session = Session::with_model(upper_registry(), Box::new(model), "system".to_owned());
    let events = collect_events(|stream| session.submit("go", stream));

    assert!(matches!(
        events.get(1),
        Some(Event::ToolCallFailed { name, error }) if name == "nope" && error.contains("unknown tool")
    ));
    assert_eq!(events.last(), Some(&Event::TurnComplete));
    assert!(matches!(
        session.transcript().get(2),
        Some(Message::ToolFailure { id, .. }) if id == "call-1"
    ));
}

#[test]
fn submit_model_error_fails_turn() {
    let model = ScriptedModel::new(vec![Err(ModelError("connection refused".to_owned()))]);
    let mut session = Session::with_model(upper_registry(), Box::new(model), "system".to_owned());
    let events = collect_events(|stream| session.submit("go", stream));

    assert_eq!(
        events,
        vec![Event::TurnFailed {
            error: "connection refused".to_owned(),
        }]
    );
}

#[test]
fn submit_empty_model_response_fails_turn() {
    let model = ScriptedModel::new(vec![Ok(text_turn(""))]);
    let mut session = Session::with_model(upper_registry(), Box::new(model), "system".to_owned());
    let events = collect_events(|stream| session.submit("go", stream));

    assert!(matches!(
        events.last(),
        Some(Event::TurnFailed { error }) if error.contains("empty response")
    ));
}

/// Streams some text, then fails: the partial text must be recorded so the
/// next turn's model remembers what the user already saw.
struct StreamThenFail;

impl ModelDriver for StreamThenFail {
    fn complete(
        &self,
        _system_prompt: &str,
        _transcript: &[Message],
        _tools: &[ToolSpec],
        on_token: &mut EventStream,
    ) -> Result<ModelTurn, ModelError> {
        on_token.token("half an answer");
        Err(ModelError("stream read failed: reset".to_owned()))
    }
}

#[test]
fn submit_records_partial_text_when_stream_fails() {
    let mut session = Session::with_model(
        upper_registry(),
        Box::new(StreamThenFail),
        "system".to_owned(),
    );
    let events = collect_events(|stream| session.submit("go", stream));

    assert!(matches!(events.first(), Some(Event::TokenDelta(text)) if text == "half an answer"));
    assert!(matches!(events.last(), Some(Event::TurnFailed { .. })));
    assert!(matches!(
        session.transcript().last(),
        Some(Message::Assistant(text)) if text == "half an answer"
    ));
}

#[test]
fn submit_enforces_tool_round_limit() {
    let turns = (0..20)
        .map(|i| Ok(tool_turn(&format!("call-{i}"), "upper", "{}")))
        .collect();
    let model = ScriptedModel::new(turns);
    let mut session = Session::with_model(upper_registry(), Box::new(model), "system".to_owned());
    let events = collect_events(|stream| session.submit("go", stream));

    assert!(matches!(
        events.last(),
        Some(Event::TurnFailed { error }) if error.contains("limit")
    ));
}

#[test]
fn call_tool_success_emits_started_finished_complete() {
    let mut session = Session::new(upper_registry());
    let events = collect_events(|stream| session.call_tool("upper", r#"{"a":1}"#, stream));

    assert_eq!(
        events,
        vec![
            Event::ToolCallStarted {
                name: "upper".to_owned(),
                args_json: r#"{"a":1}"#.to_owned(),
            },
            Event::ToolCallFinished {
                name: "upper".to_owned(),
                result_json: r#"{"A":1}"#.to_owned(),
            },
            Event::TurnComplete,
        ]
    );
    assert!(matches!(
        session.transcript().last(),
        Some(Message::ToolResult { id, name, .. }) if name == "upper" && id.starts_with("manual-")
    ));
}

#[test]
fn call_tool_unknown_fails_and_completes() {
    let mut session = Session::new(upper_registry());
    let events = collect_events(|stream| session.call_tool("nope", "{}", stream));

    assert!(matches!(
        events.get(1),
        Some(Event::ToolCallFailed { name, error }) if name == "nope" && error.contains("unknown tool")
    ));
    assert_eq!(events.last(), Some(&Event::TurnComplete));
    assert!(matches!(
        session.transcript().last(),
        Some(Message::ToolFailure { name, error, .. }) if name == "nope" && error.contains("unknown tool")
    ));
}

#[test]
fn call_tool_execution_error_records_failure() {
    let mut registry = ToolRegistry::new();
    registry.register(Box::new(Failing)).expect("register");
    let mut session = Session::new(registry);

    let events = collect_events(|stream| session.call_tool("failing", "{}", stream));

    assert!(matches!(
        events.get(1),
        Some(Event::ToolCallFailed { name, error })
            if name == "failing" && error == "tool failed: intentional"
    ));
    assert_eq!(events.last(), Some(&Event::TurnComplete));
    assert!(matches!(
        session.transcript().last(),
        Some(Message::ToolFailure { name, error, .. })
            if name == "failing" && error == "tool failed: intentional"
    ));
}

#[test]
fn notice_is_streamed_word_by_word_and_recorded_whole() {
    let mut session = Session::new(ToolRegistry::new());
    let events = collect_events(|stream| session.submit("hi", stream));
    let mut text = String::new();
    for event in &events {
        if let Event::TokenDelta(chunk) = event {
            text.push_str(chunk);
        }
    }
    assert_eq!(text, NO_MODEL_NOTICE);
    assert_eq!(events.len(), NO_MODEL_NOTICE.split_inclusive(' ').count() + 1);
    assert_eq!(events[0], Event::TokenDelta("No ".to_owned()));
    assert_eq!(
        session.transcript(),
        [
            Message::User("hi".to_owned()),
            Message::Assistant(NO_MODEL_NOTICE.to_owned())
        ]
    );
}

#[test]
fn round_limit_names_the_limit_and_runs_no_further_calls() {
    let turns = (0..20)
        .map(|i| Ok(tool_turn(&format!("call-{i}"), "upper", "{}")))
        .collect();
    let mut session = Session::with_model(
        upper_registry(),
        Box::new(ScriptedModel::new(turns)),
        String::new(),
    );
    session.set_max_tool_rounds(3);
    let events = collect_events(|stream| session.submit("go", stream));
    assert_eq!(
        events.last(),
        Some(&Event::TurnFailed {
            error: "model exceeded the limit of 3 tool rounds in one turn".to_owned()
        })
    );
    let started = events
        .iter()
        .filter(|event| matches!(event, Event::ToolCallStarted { .. }))
        .count();
    assert_eq!(started, 3);
    assert_eq!(MAX_TOOL_ROUNDS, 8);
}

#[test]
fn every_call_is_followed_by_its_outcome() {
    let two = ModelTurn {
        text: "looking".to_owned(),
        tool_calls: vec![
            ToolCallRequest {
                id: "a".to_owned(),
                name: "upper".to_owned(),
                args_json: "x".to_owned(),
            },
            ToolCallRequest {
                id: "b".to_owned(),
                name: "missing".to_owned(),
                args_json: "y".to_owned(),
            },
        ],
    };
    let model = ScriptedModel::new(vec![Ok(two), Ok(text_turn("end"))]);
    let mut session = Session::with_model(upper_registry(), Box::new(model), String::new());
    let events = collect_events(|stream| session.submit("go", stream));
    let terminal = events
        .iter()
        .filter(|event| matches!(event, Event::TurnComplete | Event::TurnFailed { .. }))
        .count();
    assert_eq!(terminal, 1);
    let transcript = session.transcript();
    assert_eq!(transcript.len(), 7);
    assert_eq!(transcript[1], Message::Assistant("looking".to_owned()));
    assert!(matches!(&transcript[2], Message::ToolCall { id, .. } if id == "a"));
    assert!(
        matches!(&transcript[3], Message::ToolResult { id, result_json, .. } if id == "a" && result_json == "X")
    );
    assert!(matches!(&transcript[4], Message::ToolCall { id, .. } if id == "b"));
    assert!(
        matches!(&transcript[5], Message::ToolFailure { id, error, .. } if id == "b" && error == "unknown tool `missing`")
    );
}

#[test]
fn manual_calls_are_numbered() {
    let mut session = Session::new(upper_registry());
    collect_events(|stream| session.call_tool("upper", "a", stream));
    collect_events(|stream| session.call_tool("upper", "b", stream));
    assert!(matches!(&session.transcript()[0], Message::ToolCall { id, .. } if id == "manual-1"));
    assert!(matches!(&session.transcript()[3], Message::ToolResult { id, .. } if id == "manual-2"));
}

#[test]
fn registry_refuses_a_taken_name() {
    let mut registry = upper_registry();
    assert!(!registry.is_empty());
    assert_eq!(
        registry.register(Box::new(Upper)),
        Err("tool `upper` is already registered".to_owned())
    );
    registry.register(Box::new(Failing)).expect("another name");
    assert_eq!(registry.iter().len(), 2);
    assert!(registry.get("failing").is_some());
    assert!(registry.get("other").is_none());
}

#[test]
fn replies_are_settled_by_value() {
    let failed = Err(ModelError("gone".to_owned()));
    assert_eq!(
        reply_message("seen", &failed),
        Some(Message::Assistant("seen".to_owned()))
    );
    assert_eq!(reply_message("", &failed), None);
    assert_eq!(
        reply_ending("seen", &failed, 0, 8),
        Some(Event::TurnFailed {
            error: "gone".to_owned()
        })
    );
    let calls = Ok(tool_turn("1", "upper", "{}"));
    assert_eq!(reply_ending("", &calls, 0, 8), None);
    assert!(matches!(
        reply_ending("", &calls, 8, 8),
        Some(Event::TurnFailed { .. })
    ));
    let silent = Ok(text_turn(""));
    assert_eq!(
        reply_ending("streamed only", &silent, 0, 8),
        Some(Event::TurnComplete)
    );
    let failure: Result<String, String> = Err("no".to_owned());
    assert_eq!(
        outcome_message("7", "t", &failure),
        Message::ToolFailure {
            id: "7".to_owned(),
            name: "t".to_owned(),
            error: "no".to_owned()
        }
    );
    assert_eq!(
        outcome_event("t", &Ok("{}".to_owned())),
        Event::ToolCallFinished {
            name: "t".to_owned(),
            result_json: "{}".to_owned()
        }
    );
}
