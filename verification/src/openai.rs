//! OpenAI-compatible chat-completions client.
//!
//! Local inference servers and hosted gateways all speak this protocol, so one
//! client with a configurable base URL covers them. It drives a session as a
//! [`ModelDriver`]: streamed responses (with a fallback for endpoints that
//! answer a plain completion), native tool calls, and tool calls in plain
//! replies for models whose native function calling is unreliable.
//!
//! The network is behind [`ChatTransport`].

use vstd::prelude::*;

use crate::config::{
    config_fault, is_temperature, law_checked_temperatures_are_in_range, Config, Profile, Temperature,
    ToolMode, DEFAULT_IDLE_SECS,
};
use crate::event::{
    deltas, messages_view, reply_view, specs_view, EventStream, Message, MessageView, ModelDriver,
    ModelError, ModelTurn, ReplyView, ToolSpec, ToolSpecView, TurnView,
};
use crate::held::{hold, Held};
use crate::json;
use crate::json::{
    at_index, at_key, is_simple, items_in, items_view, lemma_items_push, member, members_in, no_members,
    parsed, printed, put, Json, JsonView,
};
use crate::prompted::{call_in_value, extract_prompted_tool_call, prompted_call};
use crate::stream::{
    is_read, law_streamed_text_is_the_reply, outcome, read_stream, start, LineResult, LineSource,
};
use crate::text;
use crate::text::{is_at, joined, occurs, trimmed_end};

verus! {

/// Instructions appended to the system prompt where tools are described in it.
pub const PROMPTED_TOOL_INSTRUCTIONS: &'static str =
    "## Tools\n\nTo call a tool, reply with exactly one JSON object and nothing else:\n\n{\"tool_call\": {\"name\": \"<tool name>\", \"arguments\": {<arguments>}}}\n\nThe result comes back in the next message. Call one tool at a time. To\nanswer without a tool, reply in plain text.\n\nAvailable tools:\n";

/// Posts a JSON body and gives the lines of the response.
pub trait ChatTransport: Send + Sync {
    /// Whether posting `body` to `url` may be refused with `refusal`, or, where
    /// that is `None`, be answered. Of a transport that says no more, either
    /// may happen.
    open spec fn may_answer(
        &self,
        url: Seq<char>,
        api_key: Option<Seq<char>>,
        body: Seq<char>,
        refusal: Option<Seq<char>>,
    ) -> bool {
        true
    }

    /// Whether the response to posting `body` to `url` may begin with `lines`,
    /// read with a patience of `idle_secs` seconds, and, where `ended`, be no
    /// more than those.
    open spec fn may_reply(
        &self,
        url: Seq<char>,
        api_key: Option<Seq<char>>,
        body: Seq<char>,
        idle_secs: u64,
        lines: Seq<LineResult>,
        ended: bool,
    ) -> bool {
        true
    }

    /// Send `body` to `url`; the lines of the response come from the source.
    fn post_json(&self, url: &str, api_key: Option<&str>, body: &str) -> (posted: Result<
        Box<dyn LineSource>,
        String,
    >)
        ensures
            self.may_answer(
                url@,
                key_view(api_key),
                body@,
                match posted {
                    Ok(_) => None,
                    Err(refusal) => Some(refusal@),
                },
            ),
            posted is Ok ==> forall|idle_secs: u64, lines: Seq<LineResult>, ended: bool| #[trigger]
                posted->Ok_0.may_bring(idle_secs, lines, ended) ==> self.may_reply(
                    url@,
                    key_view(api_key),
                    body@,
                    idle_secs,
                    lines,
                    ended,
                ),
    ;
}

/// What a key says.
pub open spec fn key_view(api_key: Option<&str>) -> Option<Seq<char>> {
    match api_key {
        Some(key) => Some(key@),
        None => None,
    }
}

/// `{"role": role, "content": content}`.
pub open spec fn plain_message(role: Seq<char>, content: JsonView) -> JsonView {
    put(put(no_members(), "role"@, JsonView::Text(role)), "content"@, content)
}

/// `{"role": "tool", "tool_call_id": id, "content": content}`.
pub open spec fn tool_message(id: Seq<char>, content: Seq<char>) -> JsonView {
    put(
        put(
            put(no_members(), "role"@, JsonView::Text("tool"@)),
            "tool_call_id"@,
            JsonView::Text(id),
        ),
        "content"@,
        JsonView::Text(content),
    )
}

/// `{"name": name, "arguments": arguments}`.
pub open spec fn function_call(name: Seq<char>, arguments: JsonView) -> JsonView {
    put(put(no_members(), "name"@, JsonView::Text(name)), "arguments"@, arguments)
}

/// One entry of `tool_calls`.
pub open spec fn native_call(id: Seq<char>, name: Seq<char>, args_json: Seq<char>) -> JsonView {
    put(
        put(
            put(no_members(), "id"@, JsonView::Text(id)),
            "type"@,
            JsonView::Text("function"@),
        ),
        "function"@,
        function_call(name, JsonView::Text(args_json)),
    )
}

/// The arguments of a call as JSON; those that are none become `{}`.
pub open spec fn arguments_of(args_json: Seq<char>) -> JsonView {
    match parsed(args_json) {
        Ok(value) => value,
        Err(_) => no_members(),
    }
}

/// `{"tool_call": {"name": name, "arguments": arguments}}`.
pub open spec fn rendered_call(name: Seq<char>, arguments: JsonView) -> JsonView {
    put(no_members(), "tool_call"@, function_call(name, arguments))
}

/// `{"error": error}`.
pub open spec fn error_object(error: Seq<char>) -> JsonView {
    put(no_members(), "error"@, JsonView::Text(error))
}

/// The protocol message for one entry of the transcript. A tool call becomes
/// an assistant message with one `tool_calls` entry, its outcome a `tool`
/// message that answers the id. Where tools are described in the prompt, tool
/// traffic is plain text instead, since the model never saw the native
/// protocol.
pub open spec fn protocol_message(message: MessageView, prompted: bool) -> JsonView {
    match message {
        MessageView::User(text) => plain_message("user"@, JsonView::Text(text)),
        MessageView::Assistant(text) => plain_message("assistant"@, JsonView::Text(text)),
        MessageView::ToolCall { id, name, args_json } => if prompted {
            plain_message(
                "assistant"@,
                JsonView::Text(printed(rendered_call(name, arguments_of(args_json)))),
            )
        } else {
            put(
                plain_message("assistant"@, JsonView::Null),
                "tool_calls"@,
                JsonView::Array(seq![native_call(id, name, args_json)]),
            )
        },
        MessageView::ToolResult { id, name, result_json } => if prompted {
            plain_message(
                "user"@,
                JsonView::Text("Tool result ("@ + name + "): "@ + result_json),
            )
        } else {
            tool_message(id, result_json)
        },
        MessageView::ToolFailure { id, name, error } => if prompted {
            plain_message("user"@, JsonView::Text("Tool error ("@ + name + "): "@ + error))
        } else {
            tool_message(id, printed(error_object(error)))
        },
    }
}

/// The protocol messages of a conversation: the system prompt, then the
/// transcript.
pub open spec fn protocol_messages(
    system_prompt: Seq<char>,
    transcript: Seq<MessageView>,
    prompted: bool,
) -> Seq<JsonView> {
    seq![plain_message("system"@, JsonView::Text(system_prompt))] + transcript.map_values(
        |message: MessageView| protocol_message(message, prompted),
    )
}

/// The schema of a tool's arguments as JSON; one that is none becomes a
/// permissive one, rather than failing the turn.
pub open spec fn schema_of(parameters_schema: Seq<char>) -> JsonView {
    match parsed(parameters_schema) {
        Ok(value) => value,
        Err(_) => put(no_members(), "type"@, JsonView::Text("object"@)),
    }
}

/// The definition of a tool, as one entry of `tools`.
pub open spec fn definition(tool: ToolSpecView) -> JsonView {
    let function = put(
        put(
            put(no_members(), "name"@, JsonView::Text(tool.name)),
            "description"@,
            JsonView::Text(tool.description),
        ),
        "parameters"@,
        schema_of(tool.parameters_schema),
    );
    put(
        put(no_members(), "type"@, JsonView::Text("function"@)),
        "function"@,
        function,
    )
}

/// One line of a system prompt that describes a tool.
pub open spec fn tool_line(tool: ToolSpecView) -> Seq<char> {
    "- "@ + tool.name + ": "@ + tool.description + " (arguments schema: "@ + tool.parameters_schema
        + ")\n"@
}

/// The system prompt with the first `n` tools described in it.
pub open spec fn prompt_with_tools(
    system_prompt: Seq<char>,
    tools: Seq<ToolSpecView>,
    n: nat,
) -> Seq<char>
    decreases n,
{
    if n == 0 {
        system_prompt + "\n\n"@ + trimmed_end(PROMPTED_TOOL_INSTRUCTIONS@) + "\n"@
    } else {
        prompt_with_tools(system_prompt, tools, (n - 1) as nat) + tool_line(tools[n - 1])
    }
}

/// What every request holds: the model, that the response is to be streamed,
/// and the messages.
pub open spec fn request_core(model: Seq<char>, messages: Seq<JsonView>) -> JsonView {
    put(
        put(
            put(no_members(), "model"@, JsonView::Text(model)),
            "stream"@,
            JsonView::Bool(true),
        ),
        "messages"@,
        JsonView::Array(messages),
    )
}

/// A temperature in a request: the number, or `null` for one that is not
/// finite.
pub open spec fn temperature_json(number: Option<Seq<char>>) -> JsonView {
    match number {
        Some(number) => JsonView::Float(number),
        None => JsonView::Null,
    }
}

/// The body of a request.
pub open spec fn request(
    model: Seq<char>,
    tool_mode: ToolMode,
    temperature: Option<Option<Seq<char>>>,
    system_prompt: Seq<char>,
    transcript: Seq<MessageView>,
    tools: Seq<ToolSpecView>,
) -> JsonView {
    let body = match tool_mode {
        ToolMode::Native => {
            let core = request_core(model, protocol_messages(system_prompt, transcript, false));
            if tools.len() == 0 {
                core
            } else {
                put(
                    core,
                    "tools"@,
                    JsonView::Array(tools.map_values(|tool: ToolSpecView| definition(tool))),
                )
            }
        },
        ToolMode::Prompted => request_core(
            model,
            protocol_messages(
                prompt_with_tools(system_prompt, tools, tools.len()),
                transcript,
                true,
            ),
        ),
    };
    match temperature {
        Some(number) => put(body, "temperature"@, temperature_json(number)),
        None => body,
    }
}

/// What a finished reply comes to where tools are described in the prompt: a
/// tool call, which is not streamed, or text, which is streamed at once.
pub open spec fn prompted_settled(reply: ReplyView) -> (Seq<Seq<char>>, ReplyView) {
    match reply {
        Err(error) => (seq![], Err(error)),
        Ok(turn) => match prompted_call(turn.text) {
            Some(call) => (seq![], Ok(TurnView { text: seq![], tool_calls: seq![call] })),
            None => (seq![turn.text], Ok(turn)),
        },
    }
}

/// What a response of the given lines comes to: the chunks streamed, and the
/// reply. Where tools are described in the prompt, a tool call arrives as
/// reply text, so that nothing is streamed before it is known to be none.
pub open spec fn completion(tool_mode: ToolMode, lines: Seq<LineResult>) -> (
    Seq<Seq<char>>,
    ReplyView,
) {
    match tool_mode {
        ToolMode::Native => outcome(start(), lines),
        ToolMode::Prompted => prompted_settled(outcome(start(), lines).1),
    }
}

/// The address that completions are posted to.
pub open spec fn completions_url(base_url: Seq<char>) -> Seq<char> {
    base_url + "/chat/completions"@
}

/// `{"role": role, "content": content}`.
fn role_message(role: &str, content: Json) -> (message: Json)
    ensures
        message@ == plain_message(role@, content@),
{
    Json::object().with("role", Json::string(role)).with("content", content)
}

/// `{"role": "tool", "tool_call_id": id, "content": content}`.
fn tool_outcome(id: &str, content: &str) -> (message: Json)
    ensures
        message@ == tool_message(id@, content@),
{
    Json::object().with("role", Json::string("tool")).with("tool_call_id", Json::string(id)).with(
        "content",
        Json::string(content),
    )
}

/// An array of one item.
fn single(item: Json) -> (array: Json)
    ensures
        array@ == JsonView::Array(seq![item@]),
{
    let mut items: Vec<Json> = Vec::new();
    proof {
        lemma_items_push(items@, item);
        assert(items_view(items@).push(item@) =~= seq![item@]);
    }
    items.push(item);
    Json::Array(items)
}

/// The content of a message that tells the model of a tool failure: JSON
/// whatever the error says, quotes and backslashes included.
pub fn failure_content(error: &str) -> (content: String)
    ensures
        content@ == printed(error_object(error@)),
        parsed(content@) is Ok,
        parsed(content@)->Ok_0 == error_object(error@),
{
    let object = Json::object().with("error", Json::string(error));
    proof {
        let members = object@->Object_0;
        assert forall|key: Seq<char>| members.contains_key(key) implies is_simple(
            #[trigger] members[key],
            99,
        ) by {
            assert(key == "error"@);
        }
        assert(is_simple(object@, 100));
    }
    object.to_string()
}

/// A text between brackets behind a label.
fn labelled(label: &str, name: &str, body: &str) -> (line: String)
    ensures
        line@ == label@ + name@ + "): "@ + body@,
{
    let mut line = label.to_owned();
    line.append(name);
    line.append("): ");
    line.append(body);
    line
}

/// The protocol message for one entry of the transcript.
fn build_message(message: &Message, prompted: bool) -> (built: Json)
    ensures
        built@ == protocol_message(message@, prompted),
{
    match message {
        Message::User(text) => role_message("user", Json::string(text.as_str())),
        Message::Assistant(text) => role_message("assistant", Json::string(text.as_str())),
        Message::ToolCall { id, name, args_json } => {
            if prompted {
                let arguments = match json::parse(args_json.as_str()) {
                    Ok(value) => value,
                    Err(_) => Json::object(),
                };
                let call = Json::object().with("name", Json::string(name.as_str())).with(
                    "arguments",
                    arguments,
                );
                let rendered = Json::object().with("tool_call", call).to_string();
                role_message("assistant", Json::Text(rendered))
            } else {
                let function = Json::object().with("name", Json::string(name.as_str())).with(
                    "arguments",
                    Json::string(args_json.as_str()),
                );
                let call = Json::object().with("id", Json::string(id.as_str())).with(
                    "type",
                    Json::string("function"),
                ).with("function", function);
                role_message("assistant", Json::Null).with("tool_calls", single(call))
            }
        },
        Message::ToolResult { id, name, result_json } => {
            if prompted {
                role_message(
                    "user",
                    Json::Text(labelled("Tool result (", name.as_str(), result_json.as_str())),
                )
            } else {
                tool_outcome(id.as_str(), result_json.as_str())
            }
        },
        Message::ToolFailure { id, name, error } => {
            if prompted {
                role_message(
                    "user",
                    Json::Text(labelled("Tool error (", name.as_str(), error.as_str())),
                )
            } else {
                tool_outcome(id.as_str(), failure_content(error.as_str()).as_str())
            }
        },
    }
}

/// Map the flat transcript onto protocol messages, behind the system prompt.
pub fn build_messages(system_prompt: &str, transcript: &[Message], prompted: bool) -> (messages:
    Vec<Json>)
    ensures
        items_view(messages@) == protocol_messages(
            system_prompt@,
            messages_view(transcript@),
            prompted,
        ),
{
    let ghost said = messages_view(transcript@);
    let ghost whole = protocol_messages(system_prompt@, said, prompted);
    let mut messages: Vec<Json> = Vec::new();
    let first = role_message("system", Json::string(system_prompt));
    proof {
        lemma_items_push(messages@, first);
        assert(items_view(messages@).push(first@) =~= whole.take(1));
    }
    messages.push(first);
    let mut i: usize = 0;
    while i < transcript.len()
        invariant
            i <= transcript@.len(),
            said == messages_view(transcript@),
            whole == protocol_messages(system_prompt@, said, prompted),
            items_view(messages@) == whole.take(i + 1),
        decreases transcript@.len() - i,
    {
        let built = build_message(&transcript[i], prompted);
        proof {
            lemma_items_push(messages@, built);
            assert(said[i as int] == transcript@[i as int]@);
            assert(whole.take(i + 1).push(built@) =~= whole.take(i + 2));
        }
        messages.push(built);
        i += 1;
    }
    assert(whole.take(i + 1) =~= whole);
    messages
}

/// The definition of a tool, as one entry of `tools`. Schemas are raw strings
/// at the tool boundary; they are parsed here, at the protocol edge.
pub fn tool_definition(tool: &ToolSpec) -> (built: Json)
    ensures
        built@ == definition(tool@),
{
    let parameters = match json::parse(tool.parameters_schema.as_str()) {
        Ok(value) => value,
        Err(_) => Json::object().with("type", Json::string("object")),
    };
    let function = Json::object().with("name", Json::string(tool.name.as_str())).with(
        "description",
        Json::string(tool.description.as_str()),
    ).with("parameters", parameters);
    Json::object().with("type", Json::string("function")).with("function", function)
}

/// The definitions of all tools.
fn tool_definitions(tools: &[ToolSpec]) -> (built: Vec<Json>)
    ensures
        items_view(built@) == specs_view(tools@).map_values(|tool: ToolSpecView| definition(tool)),
{
    let ghost whole = specs_view(tools@).map_values(|tool: ToolSpecView| definition(tool));
    let mut built: Vec<Json> = Vec::new();
    let mut i: usize = 0;
    assert(items_view(built@) =~= whole.take(0));
    while i < tools.len()
        invariant
            i <= tools@.len(),
            whole == specs_view(tools@).map_values(|tool: ToolSpecView| definition(tool)),
            items_view(built@) == whole.take(i as int),
        decreases tools@.len() - i,
    {
        let entry = tool_definition(&tools[i]);
        proof {
            lemma_items_push(built@, entry);
            assert(specs_view(tools@)[i as int] == tools@[i as int]@);
            assert(whole.take(i as int).push(entry@) =~= whole.take(i + 1));
        }
        built.push(entry);
        i += 1;
    }
    assert(whole.take(i as int) =~= whole);
    built
}

/// The system prompt with the tools described in it.
fn describe_tools(system_prompt: &str, tools: &[ToolSpec]) -> (prompt: String)
    ensures
        prompt@ == prompt_with_tools(system_prompt@, specs_view(tools@), tools@.len()),
{
    let ghost views = specs_view(tools@);
    let mut prompt = system_prompt.to_owned();
    prompt.append("\n\n");
    prompt.append(text::trim_end(PROMPTED_TOOL_INSTRUCTIONS));
    prompt.append("\n");
    let mut i: usize = 0;
    while i < tools.len()
        invariant
            i <= tools@.len(),
            views == specs_view(tools@),
            prompt@ == prompt_with_tools(system_prompt@, views, i as nat),
        decreases tools@.len() - i,
    {
        let tool = &tools[i];
        let mut line = "- ".to_owned();
        line.append(tool.name.as_str());
        line.append(": ");
        line.append(tool.description.as_str());
        line.append(" (arguments schema: ");
        line.append(tool.parameters_schema.as_str());
        line.append(")\n");
        prompt.append(line.as_str());
        assert(views[i as int] == tool@);
        i += 1;
    }
    prompt
}

/// The OpenAI-compatible client; drives a session as its model.
pub struct OpenAiClient {
    transport: Held<Box<dyn ChatTransport>>,
    base_url: String,
    model: String,
    api_key: Option<String>,
    tool_mode: ToolMode,
    temperature: Option<Temperature>,
    idle_timeout_secs: u64,
}

/// `s` without any slash at its end.
pub open spec fn without_slashes(s: Seq<char>) -> Seq<char>
    decreases s.len(),
{
    if s.len() > 0 && s.last() == '/' {
        without_slashes(s.drop_last())
    } else {
        s
    }
}

/// `s` without any slash at its end.
fn trim_slashes(s: &str) -> (rest: String)
    ensures
        rest@ == without_slashes(s@),
{
    let chars = text::chars_of(s);
    let mut end: usize = chars.len();
    assert(chars@.take(end as int) =~= s@);
    while end > 0 && chars[end - 1] == '/'
        invariant
            chars@ == s@,
            end <= chars@.len(),
            without_slashes(s@) == without_slashes(s@.take(end as int)),
        decreases end,
    {
        assert(s@.take(end as int).drop_last() =~= s@.take(end - 1));
        end -= 1;
    }
    assert(s@.subrange(0, end as int) =~= s@.take(end as int));
    text::string_of(&chars, 0, end)
}

/// The text of an optional string.
pub open spec fn optional_text(value: Option<String>) -> Option<Seq<char>> {
    match value {
        Some(text) => Some(text@),
        None => None,
    }
}

/// The number of an optional temperature.
pub open spec fn sampled(temperature: Option<Temperature>) -> Option<Option<Seq<char>>> {
    match temperature {
        Some(temperature) => Some(temperature@),
        None => None,
    }
}

impl OpenAiClient {
    /// Where requests go.
    pub closed spec fn carrier(&self) -> Held<Box<dyn ChatTransport>> {
        self.transport
    }

    /// The base URL, without a slash at its end.
    pub closed spec fn base(&self) -> Seq<char> {
        self.base_url@
    }

    /// The model name.
    pub closed spec fn model_name(&self) -> Seq<char> {
        self.model@
    }

    /// The API key.
    pub closed spec fn key(&self) -> Option<Seq<char>> {
        optional_text(self.api_key)
    }

    /// How tool definitions reach the model.
    pub closed spec fn mode(&self) -> ToolMode {
        self.tool_mode
    }

    /// The sampling temperature.
    pub closed spec fn sampling(&self) -> Option<Option<Seq<char>>> {
        sampled(self.temperature)
    }

    /// The seconds of silence before a response fails.
    pub closed spec fn idle_secs(&self) -> u64 {
        self.idle_timeout_secs
    }

    /// Client over a transport, without a temperature and with the default
    /// idle timeout.
    pub fn with_transport(
        transport: Box<dyn ChatTransport>,
        base_url: &str,
        model: &str,
        api_key: Option<String>,
        tool_mode: ToolMode,
    ) -> (client: Self)
        ensures
            client.carrier().value == transport,
            client.base() == without_slashes(base_url@),
            client.model_name() == model@,
            client.key() == optional_text(api_key),
            client.mode() == tool_mode,
            client.sampling() is None,
            client.idle_secs() == DEFAULT_IDLE_SECS,
    {
        let transport = hold(transport);
        OpenAiClient {
            transport,
            base_url: trim_slashes(base_url),
            model: model.to_owned(),
            api_key,
            tool_mode,
            temperature: None,
            idle_timeout_secs: DEFAULT_IDLE_SECS,
        }
    }

    /// Client for a config profile, over a transport and with the key that the
    /// profile's environment variable holds.
    pub fn for_profile(
        profile: &Profile,
        transport: Box<dyn ChatTransport>,
        api_key: Option<String>,
    ) -> (client: Self)
        ensures
            client.carrier().value == transport,
            client.base() == without_slashes(profile.base_url@),
            client.model_name() == profile.model@,
            client.key() == optional_text(api_key),
            client.mode() == profile.tool_mode,
            client.sampling() == sampled(profile.temperature),
            client.idle_secs() == profile.idle_secs(),
    {
        let transport = hold(transport);
        OpenAiClient {
            transport,
            base_url: trim_slashes(profile.base_url.as_str()),
            model: profile.model.clone(),
            api_key,
            tool_mode: profile.tool_mode,
            temperature: match &profile.temperature {
                Some(temperature) => Some(temperature.copy()),
                None => None,
            },
            idle_timeout_secs: profile.idle_timeout(),
        }
    }

    /// The model name this client requests.
    pub fn model(&self) -> (name: &str)
        ensures
            name@ == self.model_name(),
    {
        self.model.as_str()
    }

    /// The body of a request.
    pub fn request_body(
        &self,
        system_prompt: &str,
        transcript: &[Message],
        tools: &[ToolSpec],
    ) -> (body: Json)
        ensures
            body@ == request(
                self.model_name(),
                self.mode(),
                self.sampling(),
                system_prompt@,
                messages_view(transcript@),
                specs_view(tools@),
            ),
    {
        let messages = match self.tool_mode {
            ToolMode::Native => build_messages(system_prompt, transcript, false),
            ToolMode::Prompted => build_messages(
                describe_tools(system_prompt, tools).as_str(),
                transcript,
                true,
            ),
        };
        let mut body = Json::object().with("model", Json::string(self.model.as_str())).with(
            "stream",
            Json::Bool(true),
        ).with("messages", Json::Array(messages));
        if let ToolMode::Native = self.tool_mode {
            if tools.len() > 0 {
                body = body.with("tools", Json::Array(tool_definitions(tools)));
            }
        }
        if let Some(temperature) = &self.temperature {
            let number = match &temperature.number {
                Some(number) => Json::Float(number.copy()),
                None => Json::Null,
            };
            body = body.with("temperature", number);
        }
        body
    }

    /// Whether posting the request may have been answered with lines that
    /// stream `chunks` and come to `reply`, or refused.
    pub open spec fn may_exchange(
        &self,
        body: Seq<char>,
        chunks: Seq<Seq<char>>,
        reply: ReplyView,
    ) -> bool {
        let url = completions_url(self.base());
        ||| reply is Err && chunks.len() == 0 && self.carrier().value.may_answer(
            url,
            self.key(),
            body,
            Some(reply->Err_0),
        )
        ||| self.carrier().value.may_answer(url, self.key(), body, None)
            && exists|lines: Seq<LineResult>, ended: bool| #[trigger]
            self.carrier().value.may_reply(url, self.key(), body, self.idle_secs(), lines, ended)
                && is_read(lines, ended) && completion(self.mode(), lines) == (chunks, reply)
    }
}

/// Settle a finished reply where tools are described in the prompt: a tool
/// call is not streamed, text is.
pub fn settle_prompted(turn: Result<ModelTurn, ModelError>, on_token: &mut EventStream) -> (reply:
    Result<ModelTurn, ModelError>)
    ensures
        reply_view(reply) == prompted_settled(reply_view(turn)).1,
        final(on_token).events() == old(on_token).events() + deltas(
            prompted_settled(reply_view(turn)).0,
        ),
        final(on_token).streamed() == old(on_token).streamed() + joined(
            prompted_settled(reply_view(turn)).0,
        ),
{
    let ghost before = *on_token;
    let ghost none = Seq::<Seq<char>>::empty();
    proof {
        assert(before.events() + deltas(none) =~= before.events());
        assert(before.streamed() + joined(none) =~= before.streamed());
    }
    match turn {
        Err(error) => Err(error),
        Ok(turn) => match extract_prompted_tool_call(turn.text.as_str()) {
            Some(call) => {
                let reply = ModelTurn { text: String::new(), tool_calls: vec![call] };
                assert(reply@.tool_calls =~= seq![call@]);
                Ok(reply)
            },
            None => {
                on_token.token(turn.text.as_str());
                proof {
                    let one = seq![turn.text@];
                    assert(one.drop_last() =~= none);
                    assert(joined(none) =~= Seq::<char>::empty());
                    assert(joined(one) =~= turn.text@);
                    assert(on_token.events() =~= before.events() + deltas(one));
                }
                Ok(turn)
            },
        },
    }
}

impl ModelDriver for OpenAiClient {
    open spec fn may_complete(
        &self,
        system_prompt: Seq<char>,
        transcript: Seq<MessageView>,
        tools: Seq<ToolSpecView>,
        chunks: Seq<Seq<char>>,
        reply: ReplyView,
    ) -> bool {
        self.may_exchange(
            printed(
                request(
                    self.model_name(),
                    self.mode(),
                    self.sampling(),
                    system_prompt,
                    transcript,
                    tools,
                ),
            ),
            chunks,
            reply,
        )
    }

    fn complete(
        &self,
        system_prompt: &str,
        transcript: &[Message],
        tools: &[ToolSpec],
        on_token: &mut EventStream,
    ) -> (reply: Result<ModelTurn, ModelError>) {
        let ghost before = *on_token;
        let mut url = self.base_url.clone();
        url.append("/chat/completions");
        let body = self.request_body(system_prompt, transcript, tools).to_string();
        let api_key = match &self.api_key {
            Some(key) => Some(key.as_str()),
            None => None,
        };
        let posted = self.transport.value.post_json(url.as_str(), api_key, body.as_str());
        let source = match posted {
            Ok(source) => hold(source),
            Err(refusal) => {
                proof {
                    let none = Seq::<Seq<char>>::empty();
                    assert(before.events() + deltas(none) =~= before.events());
                    assert(before.streamed() + joined(none) =~= before.streamed());
                    assert(self.may_complete(
                        system_prompt@,
                        messages_view(transcript@),
                        specs_view(tools@),
                        none,
                        Err(refusal@),
                    ));
                }
                return Err(ModelError(refusal));
            },
        };
        let silent = match self.tool_mode {
            ToolMode::Native => false,
            ToolMode::Prompted => true,
        };
        let (turn, Ghost(seen)) = read_stream(
            source,
            self.idle_timeout_secs,
            silent,
            on_token,
        );
        let ghost (lines, ended) = seen;
        let ghost whole = completion(self.tool_mode, lines);
        let reply = match self.tool_mode {
            ToolMode::Native => turn,
            ToolMode::Prompted => settle_prompted(turn, on_token),
        };
        proof {
            assert(self.carrier().value.may_reply(
                url@,
                self.key(),
                body@,
                self.idle_secs(),
                lines,
                ended,
            ));
            assert(completion(self.mode(), lines) == (whole.0, whole.1));
            assert(self.may_complete(
                system_prompt@,
                messages_view(transcript@),
                specs_view(tools@),
                whole.0,
                reply_view(reply),
            ));
        }
        reply
    }
}

/// What a profile of a checked configuration samples with is the number that
/// was checked: one from 0 to 2, and sent as it is.
pub proof fn law_checked_temperature_is_sent(config: Config, name: Seq<char>)
    requires
        config_fault(config) is None,
        config.profiles.has(name),
    ensures
        sampled(config.profiles.named(name).temperature) matches Some(number) ==> is_temperature(
            number,
        ) && temperature_json(number) == JsonView::Float(number->0),
{
    law_checked_temperatures_are_in_range(config, name);
}

/// A tool call that arrives as reply text is never shown as chat: where it is
/// recognized, nothing is streamed and no text remains.
pub proof fn law_prompted_calls_are_not_streamed(lines: Seq<LineResult>)
    requires
        outcome(start(), lines).1 is Ok,
        prompted_call(outcome(start(), lines).1->Ok_0.text) is Some,
    ensures
        completion(ToolMode::Prompted, lines).0.len() == 0,
        completion(ToolMode::Prompted, lines).1 is Ok,
        completion(ToolMode::Prompted, lines).1->Ok_0.text.len() == 0,
        completion(ToolMode::Prompted, lines).1->Ok_0.tool_calls == seq![
            prompted_call(outcome(start(), lines).1->Ok_0.text)->0,
        ],
{
}

/// However tools reach the model, what a successful completion streams is the
/// text that it answers with.
pub proof fn law_completions_stream_their_text(tool_mode: ToolMode, lines: Seq<LineResult>)
    requires
        completion(tool_mode, lines).1 is Ok,
    ensures
        joined(completion(tool_mode, lines).0) == completion(tool_mode, lines).1->Ok_0.text,
{
    law_streamed_text_is_the_reply(start(), lines);
    let (chunks, reply) = completion(tool_mode, lines);
    match tool_mode {
        ToolMode::Native => {
            assert(joined(chunks) =~= reply->Ok_0.text);
        },
        ToolMode::Prompted => {
            if chunks.len() > 0 {
                assert(chunks.drop_last() =~= Seq::<Seq<char>>::empty());
                assert(joined(chunks.drop_last()) =~= Seq::<char>::empty());
            }
            assert(joined(chunks) =~= reply->Ok_0.text);
        },
    }
}

/// A turn of the user or of the model is sent under its role, with its text
/// and nothing else, however tools reach the model.
pub proof fn law_turns_are_sent_as_said(text: Seq<char>, prompted: bool)
    ensures
        ({
            let said = protocol_message(MessageView::User(text), prompted);
            &&& at_key(said, "role"@) == JsonView::Text("user"@)
            &&& at_key(said, "content"@) == JsonView::Text(text)
            &&& members_in(said).dom() == set!["role"@, "content"@]
        }),
        ({
            let said = protocol_message(MessageView::Assistant(text), prompted);
            &&& at_key(said, "role"@) == JsonView::Text("assistant"@)
            &&& at_key(said, "content"@) == JsonView::Text(text)
            &&& members_in(said).dom() == set!["role"@, "content"@]
        }),
{
    reveal_strlit("role");
    reveal_strlit("content");
    assert("role"@.len() == 4);
    assert("content"@.len() == 7);
    let user = protocol_message(MessageView::User(text), prompted);
    let assistant = protocol_message(MessageView::Assistant(text), prompted);
    assert(members_in(user).dom() =~= set!["role"@, "content"@]);
    assert(members_in(assistant).dom() =~= set!["role"@, "content"@]);
}

/// A native tool call is sent as the one call of a turn without text: its id,
/// its name, and its arguments as the text that they were.
pub proof fn law_native_calls_are_sent(id: Seq<char>, name: Seq<char>, args_json: Seq<char>)
    ensures
        ({
            let sent = protocol_message(MessageView::ToolCall { id, name, args_json }, false);
            let call = at_index(at_key(sent, "tool_calls"@), 0);
            &&& at_key(sent, "role"@) == JsonView::Text("assistant"@)
            &&& member(sent, "content"@) == Some(JsonView::Null)
            &&& items_in(at_key(sent, "tool_calls"@)) is Some
            &&& items_in(at_key(sent, "tool_calls"@))->0.len() == 1
            &&& at_key(call, "id"@) == JsonView::Text(id)
            &&& at_key(call, "type"@) == JsonView::Text("function"@)
            &&& at_key(at_key(call, "function"@), "name"@) == JsonView::Text(name)
            &&& at_key(at_key(call, "function"@), "arguments"@) == JsonView::Text(args_json)
        }),
{
    reveal_strlit("role");
    reveal_strlit("content");
    reveal_strlit("tool_calls");
    assert("role"@.len() == 4);
    assert("content"@.len() == 7);
    assert("tool_calls"@.len() == 10);
    reveal_strlit("id");
    reveal_strlit("type");
    reveal_strlit("function");
    reveal_strlit("name");
    reveal_strlit("arguments");
    assert("id"@.len() == 2);
    assert("type"@.len() == 4);
    assert("function"@.len() == 8);
    assert("name"@.len() == 4);
    assert("arguments"@.len() == 9);
    assert("type"@[0] != "name"@[0]);
}

/// The result of a native call is sent as a tool's message that names the call
/// by its id and holds the result as it is, so that different results are
/// different messages.
pub proof fn law_native_results_are_sent(
    id: Seq<char>,
    name: Seq<char>,
    result_json: Seq<char>,
    other_json: Seq<char>,
)
    ensures
        ({
            let sent = protocol_message(MessageView::ToolResult { id, name, result_json }, false);
            &&& at_key(sent, "role"@) == JsonView::Text("tool"@)
            &&& at_key(sent, "tool_call_id"@) == JsonView::Text(id)
            &&& at_key(sent, "content"@) == JsonView::Text(result_json)
            &&& members_in(sent).dom() == set!["role"@, "tool_call_id"@, "content"@]
        }),
        result_json != other_json ==> protocol_message(
            MessageView::ToolResult { id, name, result_json },
            false,
        ) != protocol_message(
            MessageView::ToolResult { id, name, result_json: other_json },
            false,
        ),
{
    reveal_strlit("role");
    reveal_strlit("tool_call_id");
    reveal_strlit("content");
    assert("role"@.len() == 4);
    assert("tool_call_id"@.len() == 12);
    assert("content"@.len() == 7);
    let sent = protocol_message(MessageView::ToolResult { id, name, result_json }, false);
    let other = protocol_message(
        MessageView::ToolResult { id, name, result_json: other_json },
        false,
    );
    assert(members_in(sent).dom() =~= set!["role"@, "tool_call_id"@, "content"@]);
    assert(at_key(other, "content"@) == JsonView::Text(other_json));
}

/// The failure of a native call is sent as a tool's message that names the
/// call by its id and holds an object with the error under "error".
pub proof fn law_native_failures_are_sent(id: Seq<char>, name: Seq<char>, error: Seq<char>)
    ensures
        ({
            let sent = protocol_message(MessageView::ToolFailure { id, name, error }, false);
            &&& at_key(sent, "role"@) == JsonView::Text("tool"@)
            &&& at_key(sent, "tool_call_id"@) == JsonView::Text(id)
            &&& exists|object: JsonView|
                at_key(sent, "content"@) == JsonView::Text(#[trigger] printed(object)) && at_key(
                    object,
                    "error"@,
                ) == JsonView::Text(error) && members_in(object).dom() == set!["error"@]
        }),
{
    reveal_strlit("role");
    reveal_strlit("tool_call_id");
    reveal_strlit("content");
    assert("role"@.len() == 4);
    assert("tool_call_id"@.len() == 12);
    assert("content"@.len() == 7);
    let sent = protocol_message(MessageView::ToolFailure { id, name, error }, false);
    let object = put(no_members(), "error"@, JsonView::Text(error));
    assert(at_key(sent, "content"@) == JsonView::Text(printed(object)));
    assert(members_in(object).dom() =~= set!["error"@]);
}

/// Without native tools, a call is shown to the model as its own turn, in the
/// form that calls are recognized in: what is shown holds the call's name and
/// arguments, and is read back as the same call.
pub proof fn law_prompted_calls_are_shown(id: Seq<char>, name: Seq<char>, args_json: Seq<char>)
    ensures
        ({
            let sent = protocol_message(MessageView::ToolCall { id, name, args_json }, true);
            &&& at_key(sent, "role"@) == JsonView::Text("assistant"@)
            &&& exists|shown: JsonView|
                {
                    let call = at_key(shown, "tool_call"@);
                    &&& at_key(sent, "content"@) == JsonView::Text(#[trigger] printed(shown))
                    &&& at_key(call, "name"@) == JsonView::Text(name)
                    &&& parsed(args_json) matches Ok(value) ==> at_key(call, "arguments"@) == value
                    &&& parsed(args_json) is Err ==> member(call, "arguments"@) == Some(
                        no_members(),
                    )
                    &&& call_in_value(shown) matches Some(read) && read.name == name
                        && read.args_json == printed(at_key(call, "arguments"@))
                }
        }),
{
    reveal_strlit("role");
    reveal_strlit("content");
    assert("role"@.len() == 4);
    assert("content"@.len() == 7);
    reveal_strlit("name");
    reveal_strlit("arguments");
    assert("name"@.len() == 4);
    assert("arguments"@.len() == 9);
    let sent = protocol_message(MessageView::ToolCall { id, name, args_json }, true);
    let arguments = match parsed(args_json) {
        Ok(value) => value,
        Err(_) => no_members(),
    };
    let call = put(put(no_members(), "name"@, JsonView::Text(name)), "arguments"@, arguments);
    let shown = put(no_members(), "tool_call"@, call);
    assert(at_key(shown, "tool_call"@) == call);
    assert(at_key(sent, "content"@) == JsonView::Text(printed(shown)));
}

/// Without native tools, what came of a call is told to the model as a turn of
/// the user, under the tool's name: a result as it is, a failure as its error.
pub proof fn law_prompted_outcomes_are_told(id: Seq<char>, name: Seq<char>, said: Seq<char>)
    ensures
        ({
            let sent = protocol_message(
                MessageView::ToolResult { id, name, result_json: said },
                true,
            );
            &&& at_key(sent, "role"@) == JsonView::Text("user"@)
            &&& at_key(sent, "content"@) == JsonView::Text(
                "Tool result ("@ + name + "): "@ + said,
            )
        }),
        ({
            let sent = protocol_message(MessageView::ToolFailure { id, name, error: said }, true);
            &&& at_key(sent, "role"@) == JsonView::Text("user"@)
            &&& at_key(sent, "content"@) == JsonView::Text("Tool error ("@ + name + "): "@ + said)
        }),
{
    reveal_strlit("role");
    reveal_strlit("content");
    assert("role"@.len() == 4);
    assert("content"@.len() == 7);
}

/// A tool is offered as a function with its own name, description and
/// parameters; a schema that is no JSON stands for any object.
pub proof fn law_tools_are_offered_as_they_are(tool: ToolSpecView)
    ensures
        ({
            let function = at_key(definition(tool), "function"@);
            &&& at_key(definition(tool), "type"@) == JsonView::Text("function"@)
            &&& at_key(function, "name"@) == JsonView::Text(tool.name)
            &&& at_key(function, "description"@) == JsonView::Text(tool.description)
            &&& parsed(tool.parameters_schema) matches Ok(schema) ==> at_key(
                function,
                "parameters"@,
            ) == schema
            &&& parsed(tool.parameters_schema) is Err ==> at_key(
                at_key(function, "parameters"@),
                "type"@,
            ) == JsonView::Text("object"@)
        }),
{
    reveal_strlit("type");
    reveal_strlit("function");
    reveal_strlit("name");
    reveal_strlit("description");
    reveal_strlit("parameters");
    assert("type"@.len() == 4);
    assert("function"@.len() == 8);
    assert("name"@.len() == 4);
    assert("description"@.len() == 11);
    assert("parameters"@.len() == 10);
    assert("type"@[0] != "name"@[0]);
}

/// A request names the model, asks for a stream, and holds the system prompt
/// and then the whole transcript, each entry once and in its order; a
/// temperature is sent exactly where one is set.
pub proof fn law_requests_hold_the_transcript(
    model: Seq<char>,
    tool_mode: ToolMode,
    temperature: Option<Option<Seq<char>>>,
    system_prompt: Seq<char>,
    transcript: Seq<MessageView>,
    tools: Seq<ToolSpecView>,
)
    ensures
        ({
            let body = request(model, tool_mode, temperature, system_prompt, transcript, tools);
            let messages = at_key(body, "messages"@);
            &&& at_key(body, "model"@) == JsonView::Text(model)
            &&& at_key(body, "stream"@) == JsonView::Bool(true)
            &&& items_in(messages) is Some
            &&& items_in(messages)->0.len() == transcript.len() + 1
            &&& at_key(at_index(messages, 0), "role"@) == JsonView::Text("system"@)
            &&& tool_mode is Native ==> at_key(at_index(messages, 0), "content"@)
                == JsonView::Text(system_prompt)
            &&& forall|i: int|
                0 <= i < transcript.len() ==> at_index(messages, i + 1) == protocol_message(
                    #[trigger] transcript[i],
                    tool_mode is Prompted,
                )
            &&& temperature is None <==> member(body, "temperature"@) is None
            &&& temperature matches Some(Some(number)) ==> at_key(body, "temperature"@)
                == JsonView::Float(number)
        }),
{
    reveal_strlit("model");
    reveal_strlit("stream");
    reveal_strlit("messages");
    reveal_strlit("tools");
    reveal_strlit("temperature");
    assert("model"@.len() == 5);
    assert("stream"@.len() == 6);
    assert("messages"@.len() == 8);
    assert("tools"@.len() == 5);
    assert("temperature"@.len() == 11);
    assert("model"@[0] != "tools"@[0]);
    reveal_strlit("role");
    reveal_strlit("content");
    assert("role"@.len() == 4);
    assert("content"@.len() == 7);
    let prompt = match tool_mode {
        ToolMode::Native => system_prompt,
        ToolMode::Prompted => prompt_with_tools(system_prompt, tools, tools.len()),
    };
    let list = protocol_messages(prompt, transcript, tool_mode is Prompted);
    let body = request(model, tool_mode, temperature, system_prompt, transcript, tools);
    assert(at_key(body, "messages"@) == JsonView::Array(list));
    assert(list[0] == plain_message("system"@, JsonView::Text(prompt)));
}

/// A native request offers every tool, each once and in its order, and has no
/// list of tools where there is none; without native tools there is never a
/// list.
pub proof fn law_requests_offer_the_tools(
    model: Seq<char>,
    temperature: Option<Option<Seq<char>>>,
    system_prompt: Seq<char>,
    transcript: Seq<MessageView>,
    tools: Seq<ToolSpecView>,
)
    ensures
        ({
            let body = request(
                model,
                ToolMode::Native,
                temperature,
                system_prompt,
                transcript,
                tools,
            );
            &&& member(body, "tools"@) is None <==> tools.len() == 0
            &&& tools.len() > 0 ==> items_in(at_key(body, "tools"@)) is Some && items_in(
                at_key(body, "tools"@),
            )->0.len() == tools.len()
            &&& forall|i: int|
                0 <= i < tools.len() ==> at_index(at_key(body, "tools"@), i) == definition(
                    #[trigger] tools[i],
                )
        }),
        member(
            request(model, ToolMode::Prompted, temperature, system_prompt, transcript, tools),
            "tools"@,
        ) is None,
{
    reveal_strlit("model");
    reveal_strlit("stream");
    reveal_strlit("messages");
    reveal_strlit("tools");
    reveal_strlit("temperature");
    assert("model"@.len() == 5);
    assert("stream"@.len() == 6);
    assert("messages"@.len() == 8);
    assert("tools"@.len() == 5);
    assert("temperature"@.len() == 11);
    assert("model"@[0] != "tools"@[0]);
}

/// Without native tools, the system prompt that is sent begins with the one
/// that was given, and tells of every tool its name, what it does and its
/// schema.
pub proof fn law_prompts_tell_every_tool(
    system_prompt: Seq<char>,
    tools: Seq<ToolSpecView>,
    n: nat,
    i: int,
)
    requires
        0 <= i < n <= tools.len(),
    ensures
        is_at(prompt_with_tools(system_prompt, tools, n), system_prompt, 0),
        occurs(
            prompt_with_tools(system_prompt, tools, n),
            "- "@ + tools[i].name + ": "@ + tools[i].description + " (arguments schema: "@
                + tools[i].parameters_schema + ")\n"@,
        ),
    decreases n,
{
    let whole = prompt_with_tools(system_prompt, tools, n);
    let before = prompt_with_tools(system_prompt, tools, (n - 1) as nat);
    let line = tool_line(tools[n - 1]);
    let wanted = "- "@ + tools[i].name + ": "@ + tools[i].description + " (arguments schema: "@
        + tools[i].parameters_schema + ")\n"@;
    assert(whole == before + line);
    lemma_prompt_begins(system_prompt, tools, n);
    if i < n - 1 {
        law_prompts_tell_every_tool(system_prompt, tools, (n - 1) as nat, i);
        let at = choose|at: int| #[trigger] is_at(before, wanted, at);
        assert(whole.subrange(at, at + wanted.len()) =~= before.subrange(at, at + wanted.len()));
        assert(is_at(whole, wanted, at));
    } else {
        let at = before.len() as int;
        assert(whole.subrange(at, at + wanted.len()) =~= wanted);
        assert(is_at(whole, wanted, at));
    }
}

/// The prompt that tells the tools begins with the prompt that was given.
proof fn lemma_prompt_begins(system_prompt: Seq<char>, tools: Seq<ToolSpecView>, n: nat)
    ensures
        is_at(prompt_with_tools(system_prompt, tools, n), system_prompt, 0),
    decreases n,
{
    let whole = prompt_with_tools(system_prompt, tools, n);
    if n > 0 {
        lemma_prompt_begins(system_prompt, tools, (n - 1) as nat);
        let before = prompt_with_tools(system_prompt, tools, (n - 1) as nat);
        assert(whole.subrange(0, system_prompt.len() as int) =~= before.subrange(
            0,
            system_prompt.len() as int,
        ));
    } else {
        assert(whole.subrange(0, system_prompt.len() as int) =~= system_prompt);
    }
}

/// A base address loses the slashes at its end and nothing else, so that the
/// address of the completions holds exactly one slash behind it.
pub proof fn law_base_addresses_lose_their_slashes(base: Seq<char>)
    ensures
        ({
            let kept = without_slashes(base);
            &&& kept.len() <= base.len()
            &&& kept == base.take(kept.len() as int)
            &&& forall|i: int| kept.len() <= i < base.len() ==> #[trigger] base[i] == '/'
            &&& kept.len() > 0 ==> kept.last() != '/'
        }),
    decreases base.len(),
{
    if base.len() > 0 && base.last() == '/' {
        law_base_addresses_lose_their_slashes(base.drop_last());
        let kept = without_slashes(base);
        assert(base.drop_last().take(kept.len() as int) =~= base.take(kept.len() as int));
        assert forall|i: int| kept.len() <= i < base.len() implies #[trigger] base[i] == '/' by {
            if i < base.len() - 1 {
                assert(base.drop_last()[i] == base[i]);
            }
        }
    } else {
        assert(base.take(base.len() as int) =~= base);
    }
}

}
