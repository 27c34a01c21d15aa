use std::cell::RefCell;
use std::rc::Rc;
use std::sync::{Arc, Mutex};

use serde_json::Value;

use exile_harness::config::ToolMode;
use exile_harness::event::{
    Event, EventSink, EventStream, Message, ModelDriver, ModelError, ModelTurn, ToolCallRequest,
    ToolSpec,
};
use exile_harness::idle::{IdleBuffer, PumpEvent, Want};
use exile_harness::json;
use exile_harness::openai::{
    failure_content, settle_prompted, tool_definition, ChatTransport, OpenAiClient,
};
use exile_harness::prompted::{
    balanced_end, extract_prompted_tool_call, strip_think_blocks, tool_call_of_value,
};
use exile_harness::stream::{plain_completion, LineSource, LineStatus, StreamReader};

/// One captured request: `(url, api_key, body)`.
type Captured = Arc<Mutex<Vec<(String, Option<String>, String)>>>;

struct Lines {
    lines: Vec<String>,
}

impl LineSource for Lines {
    fn next_line(&mut self, _idle_secs: u64) -> Option<Result<String, String>> {
        if self.lines.is_empty() {
            None
        } else {
            Some(Ok(self.lines.remove(0)))
        }
    }
}

struct FixtureTransport {
    body: String,
    captured: Captured,
}

impl ChatTransport for FixtureTransport {
    fn post_json(
        &self,
        url: &str,
        api_key: Option<&str>,
        body: &str,
    ) -> Result<Box<dyn LineSource>, String> {
        self.captured.lock().expect("lock").push((
            url.to_owned(),
            api_key.map(str::to_owned),
            body.to_owned(),
        ));
        Ok(Box::new(Lines {
            lines: self.body.lines().map(str::to_owned).collect(),
        }))
    }
}

const TEXT_STREAM: &str = "data: {\"choices\":[{\"delta\":{\"content\":\"Hel\"}}]}\n\
data: {\"choices\":[{\"delta\":{\"content\":\"lo\"}}]}\n\
data: [DONE]\n";

const TOOL_STREAM: &str = "data: {\"choices\":[{\"delta\":{\"tool_calls\":[{\"index\":0,\"id\":\"call_9\",\"function\":{\"name\":\"league\",\"arguments\":\"{\\\"ga\"}}]}}]}\n\
data: {\"choices\":[{\"delta\":{\"tool_calls\":[{\"index\":0,\"function\":{\"arguments\":\"me\\\":\\\"poe1\\\"}\"}}]}}]}\n\
data: [DONE]\n";

/// Two complete calls, no `index` on either: the shape that must not merge
/// into one garbage call.
const INDEXLESS_TWO_CALLS: &str = "data: {\"choices\":[{\"delta\":{\"tool_calls\":[{\"id\":\"a\",\"function\":{\"name\":\"league\",\"arguments\":\"{\\\"game\\\":\\\"poe1\\\"}\"}}]}}]}\n\
data: {\"choices\":[{\"delta\":{\"tool_calls\":[{\"id\":\"b\",\"function\":{\"name\":\"echo\",\"arguments\":\"{\\\"x\\\":1}\"}}]}}]}\n\
data: [DONE]\n";

fn client_with(body: &str, mode: ToolMode) -> (OpenAiClient, Captured) {
    let captured: Captured = Arc::default();
    let transport = FixtureTransport {
        body: body.to_owned(),
        captured: Arc::clone(&captured),
    };
    (
        OpenAiClient::with_transport(
            Box::new(transport),
            "http://model.invalid/v1/",
            "test-model",
            Some("secret-key".to_owned()),
            mode,
        ),
        captured,
    )
}

fn league_spec() -> ToolSpec {
    ToolSpec {
        name: "league".to_owned(),
        description: "Resolve leagues.".to_owned(),
        parameters_schema: r#"{"type":"object"}"#.to_owned(),
    }
}

struct Tokens(Rc<RefCell<Vec<String>>>);

impl EventSink for Tokens {
    fn deliver(&mut self, event: &Event) {
        if let Event::TokenDelta(chunk) = event {
            self.0.borrow_mut().push(chunk.clone());
        }
    }
}

fn complete(
    client: &OpenAiClient,
    prompt: &str,
    transcript: &[Message],
    tools: &[ToolSpec],
) -> (Result<ModelTurn, ModelError>, Vec<String>) {
    let tokens = Rc::new(RefCell::new(Vec::new()));
    let mut stream = EventStream::new(Box::new(Tokens(Rc::clone(&tokens))));
    let reply = client.complete(prompt, transcript, tools, &mut stream);
    let collected = tokens.borrow().clone();
    (reply, collected)
}

#[test]
fn streams_text_deltas() {
    let (client, _) = client_with(TEXT_STREAM, ToolMode::Native);
    let (turn, tokens) = complete(&client, "sys", &[], &[]);
    let turn = turn.expect("completes");
    assert_eq!(tokens, vec!["Hel", "lo"]);
    assert_eq!(turn.text, "Hello");
    assert!(turn.tool_calls.is_empty());
}

#[test]
fn accumulates_streamed_tool_calls() {
    let (client, _) = client_with(TOOL_STREAM, ToolMode::Native);
    let (turn, _) = complete(&client, "sys", &[], &[league_spec()]);
    let turn = turn.expect("completes");
    assert_eq!(
        turn.tool_calls,
        vec![ToolCallRequest {
            id: "call_9".to_owned(),
            name: "league".to_owned(),
            args_json: r#"{"game":"poe1"}"#.to_owned(),
        }]
    );
}

#[test]
fn indexless_complete_fragments_stay_separate_calls() {
    let (client, _) = client_with(INDEXLESS_TWO_CALLS, ToolMode::Native);
    let (turn, _) = complete(&client, "sys", &[], &[league_spec()]);
    let turn = turn.expect("completes");
    assert_eq!(turn.tool_calls.len(), 2);
    assert_eq!(turn.tool_calls[0].name, "league");
    assert_eq!(turn.tool_calls[0].args_json, r#"{"game":"poe1"}"#);
    assert_eq!(turn.tool_calls[1].name, "echo");
    assert_eq!(turn.tool_calls[1].args_json, r#"{"x":1}"#);
}

#[test]
fn huge_index_appends_instead_of_allocating() {
    let stream = "data: {\"choices\":[{\"delta\":{\"tool_calls\":[{\"index\":4000000000,\"id\":\"z\",\"function\":{\"name\":\"league\",\"arguments\":\"{}\"}}]}}]}\n\
data: [DONE]\n";
    let (client, _) = client_with(stream, ToolMode::Native);
    let (turn, _) = complete(&client, "sys", &[], &[league_spec()]);
    let turn = turn.expect("completes without allocating billions of slots");
    assert_eq!(turn.tool_calls.len(), 1);
    assert_eq!(turn.tool_calls[0].name, "league");
}

fn many_calls(count: usize) -> String {
    let mut stream = String::new();
    for index in 0..count {
        stream.push_str(&format!(
            "data: {{\"choices\":[{{\"delta\":{{\"tool_calls\":[{{\"id\":\"c{index}\",\"function\":{{\"name\":\"t{index}\",\"arguments\":\"{{}}\"}}}}]}}}}]}}\n"
        ));
    }
    stream
}

#[test]
fn too_many_streamed_tool_calls_fail() {
    let (client, _) = client_with(&many_calls(40), ToolMode::Native);
    let (turn, _) = complete(&client, "sys", &[], &[]);
    let err = turn.expect_err("must cap");
    assert!(err.to_string().contains("more than"));
}

#[test]
fn as_many_calls_as_the_cap_are_taken() {
    let (client, _) = client_with(&many_calls(32), ToolMode::Native);
    let (turn, _) = complete(&client, "sys", &[], &[]);
    assert_eq!(turn.expect("fits").tool_calls.len(), 32);
    let (client, _) = client_with(&many_calls(33), ToolMode::Native);
    let (turn, _) = complete(&client, "sys", &[], &[]);
    assert_eq!(
        turn.expect_err("one too many").to_string(),
        "server streamed more than 32 tool calls in one turn"
    );
}

#[test]
fn finish_reason_length_is_an_error() {
    let stream = "data: {\"choices\":[{\"delta\":{\"content\":\"par\"},\"finish_reason\":null}]}\n\
data: {\"choices\":[{\"delta\":{},\"finish_reason\":\"length\"}]}\n\
data: [DONE]\n";
    let (client, _) = client_with(stream, ToolMode::Native);
    let (turn, _) = complete(&client, "sys", &[], &[]);
    let err = turn.expect_err("truncation is an error");
    assert!(err.to_string().contains("truncated"));
}

#[test]
fn plain_completion_fallback_when_endpoint_ignores_stream() {
    let body = "{\"choices\":[{\"message\":{\"content\":\"plain answer\",\"tool_calls\":[{\"id\":\"t1\",\"function\":{\"name\":\"league\",\"arguments\":\"{\\\"game\\\":\\\"poe2\\\"}\"}}]}}]}";
    let (client, _) = client_with(body, ToolMode::Native);
    let (turn, tokens) = complete(&client, "sys", &[], &[]);
    let turn = turn.expect("fallback parses");
    assert_eq!(tokens, vec!["plain answer"]);
    assert_eq!(turn.tool_calls.len(), 1);
    assert_eq!(turn.tool_calls[0].args_json, r#"{"game":"poe2"}"#);
}

#[test]
fn empty_non_sse_response_is_an_error() {
    let (client, _) = client_with("<html>captive portal</html>", ToolMode::Native);
    let (turn, _) = complete(&client, "sys", &[], &[]);
    let err = turn.expect_err("not a completion");
    assert!(err.to_string().contains("not a chat completion"));
}

#[test]
fn server_error_chunks_fail_the_turn() {
    let (client, _) = client_with(
        "data: {\"error\":{\"message\":\"model not found\"}}\n",
        ToolMode::Native,
    );
    let (turn, _) = complete(&client, "sys", &[], &[]);
    let err = turn.expect_err("fails");
    assert!(err.to_string().contains("model not found"));
}

#[test]
fn request_carries_url_auth_prompt_tools_and_replay() {
    let (client, captured) = client_with(TEXT_STREAM, ToolMode::Native);
    let transcript = vec![
        Message::User("what league?".to_owned()),
        Message::ToolCall {
            id: "call_1".to_owned(),
            name: "league".to_owned(),
            args_json: r#"{"game":"poe1"}"#.to_owned(),
        },
        Message::ToolResult {
            id: "call_1".to_owned(),
            name: "league".to_owned(),
            result_json: r#"{"ok":true}"#.to_owned(),
        },
        Message::ToolFailure {
            id: "call_2".to_owned(),
            name: "league".to_owned(),
            error: r#"invalid arguments: unknown game "poe3""#.to_owned(),
        },
    ];
    complete(&client, "the system prompt", &transcript, &[league_spec()])
        .0
        .expect("completes");

    let requests = captured.lock().expect("lock");
    let (url, api_key, body) = &requests[0];
    assert_eq!(url, "http://model.invalid/v1/chat/completions");
    assert_eq!(api_key.as_deref(), Some("secret-key"));

    let body: Value = serde_json::from_str(body).expect("body is JSON");
    assert_eq!(body["stream"], true);
    assert_eq!(body["model"], "test-model");
    assert_eq!(body["tools"][0]["function"]["name"], "league");
    let messages = body["messages"].as_array().expect("messages");
    assert_eq!(messages[0]["role"], "system");
    assert_eq!(messages[0]["content"], "the system prompt");
    assert_eq!(messages[2]["tool_calls"][0]["id"], "call_1");
    assert_eq!(messages[3]["role"], "tool");
    assert_eq!(messages[3]["tool_call_id"], "call_1");
    // The failure content must be *valid JSON* despite quotes in the error.
    let failure_content: Value =
        serde_json::from_str(messages[4]["content"].as_str().expect("content string"))
            .expect("failure content is valid JSON");
    assert_eq!(
        failure_content["error"],
        r#"invalid arguments: unknown game "poe3""#
    );
}

#[test]
fn prompted_request_has_no_tools_field_and_renders_transcript_as_text() {
    let (client, captured) = client_with(TEXT_STREAM, ToolMode::Prompted);
    let transcript = vec![
        Message::User("q".to_owned()),
        Message::ToolCall {
            id: "prompted-1".to_owned(),
            name: "league".to_owned(),
            args_json: r#"{"game":"poe2"}"#.to_owned(),
        },
        Message::ToolResult {
            id: "prompted-1".to_owned(),
            name: "league".to_owned(),
            result_json: r#"{"ok":true}"#.to_owned(),
        },
    ];
    complete(&client, "sys", &transcript, &[league_spec()])
        .0
        .expect("completes");

    let requests = captured.lock().expect("lock");
    let body: Value = serde_json::from_str(&requests[0].2).expect("body is JSON");
    assert!(body.get("tools").is_none(), "prompted mode sends no tools");
    let system = body["messages"][0]["content"].as_str().expect("system");
    assert!(system.contains("To call a tool"));
    assert!(system.contains("- league: Resolve leagues."));
    let call_message = body["messages"][2]["content"].as_str().expect("rendered");
    let rendered: Value = serde_json::from_str(call_message).expect("valid JSON");
    assert_eq!(rendered["tool_call"]["name"], "league");
    assert!(body["messages"][3]["content"]
        .as_str()
        .expect("result")
        .starts_with("Tool result (league):"));
}

#[test]
fn prompted_mode_parses_tool_call_without_streaming_it() {
    let stream = "data: {\"choices\":[{\"delta\":{\"content\":\"{\\\"tool_call\\\": {\\\"name\\\": \\\"league\\\", \\\"arguments\\\": {\\\"game\\\": \\\"poe2\\\"}}}\"}}]}\n\
data: [DONE]\n";
    let (client, _) = client_with(stream, ToolMode::Prompted);
    let (turn, tokens) = complete(&client, "sys", &[], &[league_spec()]);
    let turn = turn.expect("completes");
    assert!(tokens.is_empty(), "tool-call JSON must not stream as chat");
    assert_eq!(turn.tool_calls.len(), 1);
    assert_eq!(turn.tool_calls[0].name, "league");
    assert_eq!(turn.tool_calls[0].args_json, r#"{"game":"poe2"}"#);
}

#[test]
fn prompted_mode_plain_text_is_emitted_once() {
    let (client, _) = client_with(TEXT_STREAM, ToolMode::Prompted);
    let (turn, tokens) = complete(&client, "sys", &[], &[league_spec()]);
    let turn = turn.expect("completes");
    assert_eq!(tokens, vec!["Hello"]);
    assert_eq!(turn.text, "Hello");
}

#[test]
fn prompted_extraction_handles_think_blocks_and_prose() {
    let thinking = "<think>The user wants leagues, I should call the league tool with \
                    {\"game\":\"poe2\"}...</think>\n{\"tool_call\": {\"name\": \"league\", \
                    \"arguments\": {\"game\": \"poe2\"}}}";
    let call = extract_prompted_tool_call(thinking).expect("parses past think block");
    assert_eq!(call.name, "league");
    assert_eq!(call.args_json, r#"{"game":"poe2"}"#);

    let prose = "Sure! I'll check that: {\"tool_call\": {\"name\": \"league\", \
                 \"arguments\": {}}} — one moment.";
    let call = extract_prompted_tool_call(prose).expect("finds embedded object");
    assert_eq!(call.name, "league");

    let unterminated = "<think>never closed";
    assert!(extract_prompted_tool_call(unterminated).is_none());
}

#[test]
fn prompted_extraction_tolerates_code_fences() {
    let fenced = "```json\n{\"tool_call\": {\"name\": \"league\", \"arguments\": {}}}\n```";
    let call = extract_prompted_tool_call(fenced).expect("parses");
    assert_eq!(call.name, "league");
    assert_eq!(call.args_json, "{}");
    assert!(extract_prompted_tool_call("just some prose").is_none());
}

/// The reading of a response that goes silent, and of one that ends.
#[test]
fn idle_timeout_fires_on_silence_but_not_on_slow_streams() {
    let mut reader = IdleBuffer::new(50);
    assert_eq!(reader.want(), Want::Wait);
    assert_eq!(reader.accept(PumpEvent::Chunk(vec![b'x'])), Ok(true));
    assert_eq!(reader.want(), Want::Serve);
    assert_eq!(reader.take(8), vec![b'x']);
    assert_eq!(reader.want(), Want::Wait);
    let err = reader
        .accept(PumpEvent::Silence)
        .expect_err("silence must time out");
    assert!(err.contains("idle timeout"));
    assert_eq!(
        err,
        "no data received for 50s (idle timeout; the endpoint may be stalled)"
    );
    assert_eq!(reader.want(), Want::End);

    let mut ok_reader = IdleBuffer::new(50);
    let mut out = Vec::new();
    assert_eq!(
        ok_reader.accept(PumpEvent::Chunk(b"hello".to_vec())),
        Ok(true)
    );
    while ok_reader.want() == Want::Serve {
        out.append(&mut ok_reader.take(2));
    }
    assert_eq!(ok_reader.accept(PumpEvent::Chunk(Vec::new())), Ok(false));
    assert_eq!(ok_reader.want(), Want::End);
    assert_eq!(out, b"hello".to_vec());

    let mut broken = IdleBuffer::new(1);
    assert_eq!(
        broken.accept(PumpEvent::Failed("reset".to_owned())),
        Err("reset".to_owned())
    );
    assert_eq!(broken.want(), Want::End);
}

#[test]
fn lines_are_read_one_by_one() {
    let mut reader = StreamReader::new();
    let read = reader.line("data: {\"choices\":[{\"delta\":{\"content\":\"a\"}}]}");
    assert_eq!(read.token.as_deref(), Some("a"));
    assert!(matches!(read.status, LineStatus::More));
    assert!(matches!(reader.line(": comment").status, LineStatus::More));
    let bad = reader.line("data: {nope");
    assert!(
        matches!(bad.status, LineStatus::Failed(error) if error.to_string().starts_with("bad stream chunk: ") && error.to_string().ends_with(" in {nope"))
    );
    assert!(matches!(reader.line("data:  [DONE] ").status, LineStatus::Done));
    let (token, reply) = reader.finish();
    assert_eq!(token, None);
    assert_eq!(reply.expect("reply").text, "a");
}

#[test]
fn fragments_merge_by_index_and_identity() {
    let mut reader = StreamReader::new();
    let mut feed = |text: &str| {
        let read = reader.line(&format!("data: {text}"));
        assert!(matches!(read.status, LineStatus::More), "{text}");
    };
    // Dense indexes, the name once, arguments in pieces.
    feed(r#"{"choices":[{"delta":{"tool_calls":[{"index":0,"id":"a","function":{"name":"x","arguments":"1"}},{"index":1,"id":"b","function":{"name":"y"}}]}}]}"#);
    feed(r#"{"choices":[{"delta":{"tool_calls":[{"index":0,"function":{"arguments":"2"}},{"index":0},{"index":1,"function":{"arguments":"3"}}]}}]}"#);
    // A name once more over a filled slot begins another call.
    feed(r#"{"choices":[{"delta":{"tool_calls":[{"index":0,"function":{"name":"z"}}]}}]}"#);
    // A call without a name is dropped.
    feed(r#"{"choices":[{"delta":{"tool_calls":[{"id":"d","index":9}]}}]}"#);
    let reply = reader.finish().1.expect("reply");
    let calls: Vec<(&str, &str, &str)> = reply
        .tool_calls
        .iter()
        .map(|call| (call.id.as_str(), call.name.as_str(), call.args_json.as_str()))
        .collect();
    assert_eq!(
        calls,
        vec![("a", "x", "12"), ("b", "y", "3"), ("call-2", "z", "{}")]
    );
}

#[test]
fn plain_completions_are_read_by_value() {
    let value = json::parse(
        r#"{"choices":[{"message":{"tool_calls":[{"function":{}},{"function":{"name":"t"}}]}}]}"#,
    )
    .expect("json");
    let reply = plain_completion(&value).expect("reply");
    assert_eq!(reply.text, "");
    assert_eq!(reply.tool_calls[0].id, "call-1");
    assert_eq!(reply.tool_calls[0].args_json, "{}");
    let none = json::parse("{}").expect("json");
    assert_eq!(
        plain_completion(&none).expect_err("no choices").to_string(),
        "response contained no choices"
    );
    let error = json::parse(r#"{"error":"x"}"#).expect("json");
    assert_eq!(
        plain_completion(&error).expect_err("error").to_string(),
        "server error: \"x\""
    );
}

#[test]
fn refused_posts_and_broken_streams_fail_the_turn() {
    struct Refuse;
    impl ChatTransport for Refuse {
        fn post_json(
            &self,
            _url: &str,
            _api_key: Option<&str>,
            _body: &str,
        ) -> Result<Box<dyn LineSource>, String> {
            Err("no route to host".to_owned())
        }
    }
    let client =
        OpenAiClient::with_transport(Box::new(Refuse), "http://x//", "m", None, ToolMode::Native);
    assert_eq!(client.model(), "m");
    let (reply, tokens) = complete(&client, "", &[], &[]);
    assert_eq!(reply, Err(ModelError("no route to host".to_owned())));
    assert!(tokens.is_empty());

    struct Broken;
    impl LineSource for Broken {
        fn next_line(&mut self, _idle_secs: u64) -> Option<Result<String, String>> {
            Some(Err("reset".to_owned()))
        }
    }
    struct Breaking;
    impl ChatTransport for Breaking {
        fn post_json(
            &self,
            _url: &str,
            _api_key: Option<&str>,
            _body: &str,
        ) -> Result<Box<dyn LineSource>, String> {
            Ok(Box::new(Broken))
        }
    }
    let client =
        OpenAiClient::with_transport(Box::new(Breaking), "http://x", "m", None, ToolMode::Native);
    let (reply, _) = complete(&client, "", &[], &[]);
    assert_eq!(
        reply,
        Err(ModelError("stream read failed: reset".to_owned()))
    );
}

#[test]
fn thinking_is_stripped_and_objects_are_balanced() {
    assert_eq!(strip_think_blocks("a<think>b</think>c<think>d"), "ac");
    assert_eq!(strip_think_blocks("plain"), "plain");
    let text: Vec<char> = r#"{"a":"}\"","b":{}} tail"#.chars().collect();
    assert_eq!(balanced_end(&text, 0), Some(18));
    let open: Vec<char> = r#"{"a":"}"#.chars().collect();
    assert_eq!(balanced_end(&open, 0), None);
}

#[test]
fn prompted_calls_are_read_by_value() {
    let value = json::parse(r#"{"tool_call":{"name":"t","arguments":[1]}}"#).expect("json");
    let call = tool_call_of_value(&value).expect("call");
    assert_eq!(call.id, "prompted-1");
    assert_eq!(call.args_json, "[1]");
    let bare = json::parse(r#"{"tool_call":{"name":"t"}}"#).expect("json");
    assert_eq!(tool_call_of_value(&bare).expect("call").args_json, "{}");
    for other in ["{}", r#"{"tool_call":{}}"#, r#"{"tool_call":{"name":1}}"#, "[]"] {
        let value = json::parse(other).expect("json");
        assert!(tool_call_of_value(&value).is_none(), "{other}");
    }
}

#[test]
fn prompted_replies_settle_by_value() {
    let tokens = Rc::new(RefCell::new(Vec::new()));
    let mut stream = EventStream::new(Box::new(Tokens(Rc::clone(&tokens))));
    let error = settle_prompted(Err(ModelError("x".to_owned())), &mut stream);
    assert_eq!(error, Err(ModelError("x".to_owned())));
    let text = settle_prompted(
        Ok(ModelTurn {
            text: "hi".to_owned(),
            tool_calls: Vec::new(),
        }),
        &mut stream,
    );
    assert_eq!(text.expect("text").text, "hi");
    let call = settle_prompted(
        Ok(ModelTurn {
            text: "{\"tool_call\":{\"name\":\"t\"}}".to_owned(),
            tool_calls: Vec::new(),
        }),
        &mut stream,
    );
    assert_eq!(call.expect("call").text, "");
    assert_eq!(*tokens.borrow(), vec!["hi".to_owned()]);
}

#[test]
fn failure_content_is_json_whatever_the_error_says() {
    assert_eq!(
        failure_content("a \"b\" \\ \n"),
        "{\"error\":\"a \\\"b\\\" \\\\ \\n\"}"
    );
}

#[test]
fn unreadable_schemas_fall_back_to_a_permissive_one() {
    let mut spec = league_spec();
    spec.parameters_schema = "nope".to_owned();
    assert_eq!(
        tool_definition(&spec).to_string(),
        r#"{"function":{"description":"Resolve leagues.","name":"league","parameters":{"type":"object"}},"type":"function"}"#
    );
}

#[test]
fn restated_identity_over_a_call_without_an_id_begins_another() {
    let mut reader = StreamReader::new();
    let mut feed = |text: &str| {
        let read = reader.line(&format!("data: {text}"));
        assert!(matches!(read.status, LineStatus::More), "{text}");
    };
    feed(r#"{"choices":[{"delta":{"tool_calls":[{"function":{"name":"league","arguments":"{}"}}]}}]}"#);
    feed(r#"{"choices":[{"delta":{"tool_calls":[{"id":"b","function":{"name":"echo","arguments":"{}"}}]}}]}"#);
    // An id alone is that of the call that is there.
    feed(r#"{"choices":[{"delta":{"tool_calls":[{"id":"b","function":{"arguments":" "}}]}}]}"#);
    let reply = reader.finish().1.expect("reply");
    let calls: Vec<(&str, &str, &str)> = reply
        .tool_calls
        .iter()
        .map(|call| (call.id.as_str(), call.name.as_str(), call.args_json.as_str()))
        .collect();
    assert_eq!(calls, vec![("call-0", "league", "{}"), ("b", "echo", "{} ")]);
}
