//! Reading the response of a chat-completions endpoint: a stream of
//! server-sent events, or a plain completion from endpoints that do not
//! stream.

use vstd::prelude::*;

use crate::event::{
    CallView, EventStream, ModelError, ModelTurn, ReplyView, ToolCallRequest, TurnView,
};
use crate::event::{deltas, reply_view, EventView};
use crate::held::Held;
use crate::json;
use crate::json::{
    at_index, at_key, items_in, items_view, lemma_items_view, member, parsed, printed, text_in,
    unsigned_in, Json, JsonView,
};
use crate::text;
use crate::text::{decimal, is_at, joined, trimmed};

verus! {

/// Hard cap on distinct tool calls accepted from one streamed response;
/// the accumulator is sized by server-controlled data, so it must be
/// bounded.
pub const MAX_STREAM_TOOL_CALLS: usize = 32;

/// Cap, in bytes, on how much of a response that is no event stream is kept
/// for the plain-completion fallback.
pub const MAX_FALLBACK_BODY: usize = 262144;

/// One streamed tool call, as far as its fragments have arrived.
#[derive(Debug)]
pub struct PartialToolCall {
    id: String,
    name: String,
    args: String,
}

/// What a [`PartialToolCall`] holds.
pub ghost struct PartialView {
    /// Call id, empty while unknown.
    pub id: Seq<char>,
    /// Tool name, empty while unknown.
    pub name: Seq<char>,
    /// JSON arguments, as far as they have arrived.
    pub args: Seq<char>,
}

impl View for PartialToolCall {
    type V = PartialView;

    closed spec fn view(&self) -> PartialView {
        PartialView { id: self.id@, name: self.name@, args: self.args@ }
    }
}

/// What a list of partial calls holds.
pub open spec fn partials_view(calls: Seq<PartialToolCall>) -> Seq<PartialView> {
    calls.map_values(|call: PartialToolCall| call@)
}

/// The call id that a fragment states.
pub open spec fn fragment_id(fragment: JsonView) -> Option<Seq<char>> {
    text_in(at_key(fragment, "id"@))
}

/// The tool name that a fragment states.
pub open spec fn fragment_name(fragment: JsonView) -> Option<Seq<char>> {
    text_in(at_key(at_key(fragment, "function"@), "name"@))
}

/// The piece of arguments that a fragment carries.
pub open spec fn fragment_args(fragment: JsonView) -> Option<Seq<char>> {
    text_in(at_key(at_key(fragment, "function"@), "arguments"@))
}

/// The slot that a fragment asks for, at most one past the end; the last one
/// where it states none.
pub open spec fn fragment_slot(calls: Seq<PartialView>, fragment: JsonView) -> int {
    match unsigned_in(at_key(fragment, "index"@)) {
        Some(index) => if index > calls.len() {
            calls.len() as int
        } else {
            index as int
        },
        None => if calls.len() == 0 {
            0
        } else {
            calls.len() - 1
        },
    }
}

/// Whether a fragment, sent for a slot that holds `existing`, restates the
/// identity of a call that is there, and so begins another: it states another
/// id, or, where the two have no ids to compare, a name for a slot that has
/// both a name and arguments.
pub open spec fn begins_call(existing: PartialView, fragment: JsonView) -> bool {
    if fragment_id(fragment) is Some && existing.id.len() > 0 {
        existing.id != fragment_id(fragment)->0
    } else {
        fragment_name(fragment) is Some && existing.name.len() > 0 && existing.args.len() > 0
    }
}

/// The slot that a fragment goes to.
pub open spec fn target_slot(calls: Seq<PartialView>, fragment: JsonView) -> int {
    let slot = fragment_slot(calls, fragment);
    if slot < calls.len() && begins_call(calls[slot], fragment) {
        calls.len() as int
    } else {
        slot
    }
}

/// A call with a fragment merged in: id and name are overwritten, arguments
/// appended.
pub open spec fn with_fragment(call: PartialView, fragment: JsonView) -> PartialView {
    PartialView {
        id: match fragment_id(fragment) {
            Some(id) => id,
            None => call.id,
        },
        name: match fragment_name(fragment) {
            Some(name) => name,
            None => call.name,
        },
        args: match fragment_args(fragment) {
            Some(args) => call.args + args,
            None => call.args,
        },
    }
}

/// A call of which nothing has arrived.
pub open spec fn empty_call() -> PartialView {
    PartialView { id: seq![], name: seq![], args: seq![] }
}

/// What a stream with too many tool calls fails with.
pub open spec fn too_many_calls() -> Seq<char> {
    "server streamed more than "@ + decimal(MAX_STREAM_TOOL_CALLS as nat)
        + " tool calls in one turn"@
}

/// The calls with a fragment merged in.
///
/// Servers that keep to the protocol send dense indexes with the name once per
/// call; others omit the index or reuse zero while sending each call whole. So
/// an index never reaches past the end, and a fragment that restates the
/// identity of a filled slot begins a new call.
pub open spec fn merged(calls: Seq<PartialView>, fragment: JsonView) -> Result<
    Seq<PartialView>,
    Seq<char>,
> {
    let slot = target_slot(calls, fragment);
    if fragment_id(fragment) is None && fragment_name(fragment) is None && fragment_args(
        fragment,
    ) is None {
        Ok(calls)
    } else if slot < calls.len() {
        Ok(calls.update(slot, with_fragment(calls[slot], fragment)))
    } else if calls.len() >= MAX_STREAM_TOOL_CALLS {
        Err(too_many_calls())
    } else {
        Ok(calls.push(with_fragment(empty_call(), fragment)))
    }
}

/// The calls with the first `n` fragments merged in, one after the other.
pub open spec fn merged_all(calls: Seq<PartialView>, fragments: Seq<JsonView>, n: nat) -> Result<
    Seq<PartialView>,
    Seq<char>,
>
    decreases n,
{
    if n == 0 {
        Ok(calls)
    } else {
        match merged_all(calls, fragments, (n - 1) as nat) {
            Err(error) => Err(error),
            Ok(before) => merged(before, fragments[n - 1]),
        }
    }
}

/// The requests that finished calls make: those without a name are dropped, a
/// missing id is made from the position, missing arguments are `{}`.
pub open spec fn finalized(calls: Seq<PartialView>) -> Seq<CallView>
    decreases calls.len(),
{
    if calls.len() == 0 {
        seq![]
    } else {
        let before = finalized(calls.drop_last());
        let call = calls.last();
        if call.name.len() == 0 {
            before
        } else {
            before.push(
                CallView {
                    id: if call.id.len() == 0 {
                        position_id((calls.len() - 1) as nat)
                    } else {
                        call.id
                    },
                    name: call.name,
                    args_json: if call.args.len() == 0 {
                        "{}"@
                    } else {
                        call.args
                    },
                },
            )
        }
    }
}

/// The id of a call that was given none, by its position.
pub open spec fn position_id(index: nat) -> Seq<char> {
    "call-"@ + decimal(index)
}

/// Where the reading of a response stands.
pub ghost struct StreamView {
    /// The text so far.
    pub text: Seq<char>,
    /// The tool calls so far.
    pub calls: Seq<PartialView>,
    /// Why the model stopped, if it said so.
    pub finish_reason: Option<Seq<char>>,
    /// Whether any event has arrived.
    pub saw_data: bool,
    /// The lines before the first event, put together.
    pub fallback: Seq<char>,
}

/// What reading goes on with after a line.
pub ghost enum Verdict {
    /// The next line.
    More,
    /// Nothing: the stream is over.
    Done,
    /// Nothing: the response failed.
    Failed(Seq<char>),
}

/// What a line comes to.
pub ghost struct LineView {
    /// Where the reading stands behind it.
    pub state: StreamView,
    /// The text that it adds.
    pub token: Option<Seq<char>>,
    /// What reading goes on with.
    pub verdict: Verdict,
}

/// Where the reading of a response begins.
pub open spec fn start() -> StreamView {
    StreamView { text: seq![], calls: seq![], finish_reason: None, saw_data: false, fallback: seq![] }
}

/// What an event comes to.
pub open spec fn after_chunk(state: StreamView, chunk: JsonView) -> LineView {
    match member(chunk, "error"@) {
        Some(message) => LineView {
            state,
            token: None,
            verdict: Verdict::Failed("server error: "@ + printed(message)),
        },
        None => {
            let choice = at_index(at_key(chunk, "choices"@), 0);
            let delta = at_key(choice, "delta"@);
            let token = match text_in(at_key(delta, "content"@)) {
                Some(content) => if content.len() > 0 {
                    Some(content)
                } else {
                    None
                },
                None => None,
            };
            let calls = match items_in(at_key(delta, "tool_calls"@)) {
                Some(fragments) => merged_all(state.calls, fragments, fragments.len()),
                None => Ok(state.calls),
            };
            LineView {
                state: StreamView {
                    text: match token {
                        Some(content) => state.text + content,
                        None => state.text,
                    },
                    calls: match calls {
                        Ok(calls) => calls,
                        Err(_) => state.calls,
                    },
                    finish_reason: match text_in(at_key(choice, "finish_reason"@)) {
                        Some(reason) => Some(reason),
                        None => state.finish_reason,
                    },
                    ..state
                },
                token,
                verdict: match calls {
                    Ok(_) => Verdict::More,
                    Err(error) => Verdict::Failed(error),
                },
            }
        },
    }
}

/// What a line comes to. An event begins with `data: `; other lines are kept,
/// up to a limit, while no event has arrived.
pub open spec fn after_line(state: StreamView, line: Seq<char>) -> LineView {
    if !is_at(line, "data: "@, 0) {
        let kept = if !state.saw_data && vstd::utf8::encode_utf8(state.fallback).len()
            < MAX_FALLBACK_BODY {
            StreamView { fallback: state.fallback + line, ..state }
        } else {
            state
        };
        LineView { state: kept, token: None, verdict: Verdict::More }
    } else {
        let state = StreamView { saw_data: true, ..state };
        let payload = line.skip(6);
        if trimmed(payload) == "[DONE]"@ {
            LineView { state, token: None, verdict: Verdict::Done }
        } else {
            match parsed(payload) {
                Err(error) => LineView {
                    state,
                    token: None,
                    verdict: Verdict::Failed("bad stream chunk: "@ + error + " in "@ + payload),
                },
                Ok(chunk) => after_chunk(state, chunk),
            }
        }
    }
}

/// The requests that the first `n` entries of a plain completion make: those
/// without a name are dropped.
pub open spec fn plain_calls(entries: Seq<JsonView>, n: nat) -> Seq<CallView>
    decreases n,
{
    if n == 0 {
        seq![]
    } else {
        let before = plain_calls(entries, (n - 1) as nat);
        let entry = entries[n - 1];
        let function = at_key(entry, "function"@);
        match text_in(at_key(function, "name"@)) {
            None => before,
            Some(name) => before.push(
                CallView {
                    id: match text_in(at_key(entry, "id"@)) {
                        Some(id) => id,
                        None => position_id((n - 1) as nat),
                    },
                    name,
                    args_json: match text_in(at_key(function, "arguments"@)) {
                        Some(args) => args,
                        None => "{}"@,
                    },
                },
            ),
        }
    }
}

/// The reply that a plain completion makes.
pub open spec fn plain_reply(value: JsonView) -> ReplyView {
    match member(value, "error"@) {
        Some(message) => Err("server error: "@ + printed(message)),
        None => {
            let message = at_key(at_index(at_key(value, "choices"@), 0), "message"@);
            if message is Null {
                Err("response contained no choices"@)
            } else {
                Ok(
                    TurnView {
                        text: match text_in(at_key(message, "content"@)) {
                            Some(content) => content,
                            None => seq![],
                        },
                        tool_calls: match items_in(at_key(message, "tool_calls"@)) {
                            Some(entries) => plain_calls(entries, entries.len()),
                            None => seq![],
                        },
                    },
                )
            }
        },
    }
}

/// What a body that is neither an event stream nor a completion fails with.
pub open spec fn no_completion() -> Seq<char> {
    "response contained no SSE data and is not a chat completion — the endpoint may not be OpenAI-compatible"@
}

/// What a response cut off by the server's token limit fails with.
pub open spec fn truncated() -> Seq<char> {
    "model response was truncated (finish_reason=length); raise the server's output token limit"@
}

/// The reply that a body makes as a plain completion.
pub open spec fn body_reply(body: Seq<char>) -> ReplyView {
    match parsed(trimmed(body)) {
        Ok(value) => plain_reply(value),
        Err(_) => Err(no_completion()),
    }
}

/// The chunks in which a plain completion is streamed: its text at once.
pub open spec fn reply_chunks(reply: ReplyView) -> Seq<Seq<char>> {
    match reply {
        Ok(turn) => if turn.text.len() > 0 {
            seq![turn.text]
        } else {
            seq![]
        },
        Err(_) => seq![],
    }
}

/// What a response comes to that ends here: chunks still to stream, and the
/// reply.
pub open spec fn finished(state: StreamView) -> (Seq<Seq<char>>, ReplyView) {
    if !state.saw_data {
        (reply_chunks(body_reply(state.fallback)), body_reply(state.fallback))
    } else if state.finish_reason == Some("length"@) {
        (seq![], Err(truncated()))
    } else {
        (seq![], Ok(TurnView { text: state.text, tool_calls: finalized(state.calls) }))
    }
}

/// A line that was read, or why reading failed.
pub type LineResult = Result<Seq<char>, Seq<char>>;

/// What a response of the given lines comes to, from a state on: the chunks
/// streamed, and the reply.
pub open spec fn outcome(state: StreamView, lines: Seq<LineResult>) -> (Seq<Seq<char>>, ReplyView)
    decreases lines.len(),
{
    if lines.len() == 0 {
        finished(state)
    } else {
        match lines[0] {
            Err(error) => (seq![], Err("stream read failed: "@ + error)),
            Ok(line) => {
                let read = after_line(state, line);
                let (chunks, reply) = match read.verdict {
                    Verdict::More => outcome(read.state, lines.skip(1)),
                    Verdict::Done => finished(read.state),
                    Verdict::Failed(error) => (seq![], Err(error)),
                };
                (token_chunks(read.token) + chunks, reply)
            },
        }
    }
}

/// A token as chunks.
pub open spec fn token_chunks(token: Option<Seq<char>>) -> Seq<Seq<char>> {
    match token {
        Some(token) => seq![token],
        None => seq![],
    }
}

/// Merge one streamed `tool_calls` fragment into the calls.
fn merge_tool_fragment(calls: &mut Vec<PartialToolCall>, fragment: &Json) -> (done: Result<
    (),
    ModelError,
>)
    ensures
        match done {
            Ok(()) => merged(partials_view(old(calls)@), fragment@) is Ok && merged(
                partials_view(old(calls)@),
                fragment@,
            )->Ok_0 == partials_view(final(calls)@),
            Err(error) => merged(partials_view(old(calls)@), fragment@) is Err && merged(
                partials_view(old(calls)@),
                fragment@,
            )->Err_0 == error.0@ && partials_view(final(calls)@) == partials_view(old(calls)@),
        },
{
    let ghost before = partials_view(calls@);
    let id = fragment.key("id").as_str();
    let function = fragment.key("function");
    let name = function.key("name").as_str();
    let args = function.key("arguments").as_str();
    if id.is_none() && name.is_none() && args.is_none() {
        return Ok(());
    }
    let len: usize = calls.len();
    let mut slot: usize = match fragment.key("index").as_u64() {
        Some(index) => if index > len as u64 {
            len
        } else {
            index as usize
        },
        None => if len == 0 {
            0
        } else {
            len - 1
        },
    };
    assert(slot == fragment_slot(before, fragment@));
    if slot < len {
        let existing = &calls[slot];
        assert(before[slot as int] == existing@);
        let renamed = name.is_some() && !existing.name.as_str().is_empty()
            && !existing.args.as_str().is_empty();
        let begins = match id {
            Some(id) => if existing.id.as_str().is_empty() {
                renamed
            } else {
                !text::same(existing.id.as_str(), id)
            },
            None => renamed,
        };
        if begins {
            slot = len;
        }
    }
    assert(slot == target_slot(before, fragment@));
    let mut call = PartialToolCall { id: String::new(), name: String::new(), args: String::new() };
    assert(call@ == empty_call());
    if slot < len {
        let existing = &calls[slot];
        call = PartialToolCall {
            id: existing.id.clone(),
            name: existing.name.clone(),
            args: existing.args.clone(),
        };
        assert(call@ == before[slot as int]);
    } else if len >= MAX_STREAM_TOOL_CALLS {
        let mut error = "server streamed more than ".to_owned();
        error.append(text::decimal_text(MAX_STREAM_TOOL_CALLS as u64).as_str());
        error.append(" tool calls in one turn");
        return Err(ModelError(error));
    }
    let ghost slot_call = call@;
    if let Some(id) = id {
        call.id = id.to_owned();
    }
    if let Some(name) = name {
        call.name = name.to_owned();
    }
    if let Some(args) = args {
        call.args.append(args);
    }
    assert(call@ == with_fragment(slot_call, fragment@));
    if slot < len {
        calls[slot] = call;
        assert(partials_view(calls@) =~= before.update(slot as int, call@));
    } else {
        calls.push(call);
        assert(partials_view(calls@) =~= before.push(call@));
    }
    Ok(())
}

/// The id of a call that was given none, by its position.
fn id_of_position(index: usize) -> (id: String)
    ensures
        id@ == position_id(index as nat),
{
    let mut id = "call-".to_owned();
    id.append(text::decimal_text(index as u64).as_str());
    id
}

/// The requests that finished calls make.
fn finalize_calls(calls: &Vec<PartialToolCall>) -> (requests: Vec<ToolCallRequest>)
    ensures
        crate::event::calls_view(requests@) == finalized(partials_view(calls@)),
{
    let ghost all = partials_view(calls@);
    let mut requests: Vec<ToolCallRequest> = Vec::new();
    let mut i: usize = 0;
    assert(crate::event::calls_view(requests@) =~= finalized(all.take(0)));
    while i < calls.len()
        invariant
            all == partials_view(calls@),
            i <= calls@.len(),
            crate::event::calls_view(requests@) == finalized(all.take(i as int)),
        decreases calls@.len() - i,
    {
        let call = &calls[i];
        let ghost before = requests@;
        proof {
            assert(all.take(i + 1).drop_last() =~= all.take(i as int));
            assert(all.take(i + 1).last() == call@);
        }
        if !call.name.as_str().is_empty() {
            let id = if call.id.as_str().is_empty() {
                id_of_position(i)
            } else {
                call.id.clone()
            };
            let args_json = if call.args.as_str().is_empty() {
                "{}".to_owned()
            } else {
                call.args.clone()
            };
            let request = ToolCallRequest { id, name: call.name.clone(), args_json };
            requests.push(request);
            assert(crate::event::calls_view(requests@) =~= crate::event::calls_view(before).push(
                request@,
            ));
        }
        i += 1;
    }
    assert(all.take(i as int) =~= all);
    requests
}

/// What reading goes on with after a line.
#[derive(Debug)]
pub enum LineStatus {
    /// The next line.
    More,
    /// Nothing: the stream is over.
    Done,
    /// Nothing: the response failed.
    Failed(ModelError),
}

impl View for LineStatus {
    type V = Verdict;

    open spec fn view(&self) -> Verdict {
        match *self {
            LineStatus::More => Verdict::More,
            LineStatus::Done => Verdict::Done,
            LineStatus::Failed(error) => Verdict::Failed(error.0@),
        }
    }
}

/// What a line came to: text to stream, and what reading goes on with.
#[derive(Debug)]
pub struct LineRead {
    /// Text to stream.
    pub token: Option<String>,
    /// What reading goes on with.
    pub status: LineStatus,
}

/// The text in an option.
pub open spec fn token_view(token: Option<String>) -> Option<Seq<char>> {
    match token {
        Some(token) => Some(token@),
        None => None,
    }
}

/// What the value of reading a line says, where reading stands at `state`
/// behind it. Of a response that failed the state has no meaning.
pub open spec fn says(read: LineRead, state: StreamView, line: LineView) -> bool {
    &&& token_view(read.token) == line.token
    &&& read.status@ == line.verdict
    &&& read.status@ is Failed || state == line.state
}

/// Reads the response of a chat-completions endpoint, line by line.
#[derive(Debug)]
pub struct StreamReader {
    text: String,
    calls: Vec<PartialToolCall>,
    finish_reason: Option<String>,
    saw_data: bool,
    fallback_body: String,
}

impl View for StreamReader {
    type V = StreamView;

    closed spec fn view(&self) -> StreamView {
        StreamView {
            text: self.text@,
            calls: partials_view(self.calls@),
            finish_reason: token_view(self.finish_reason),
            saw_data: self.saw_data,
            fallback: self.fallback_body@,
        }
    }
}

impl StreamReader {
    /// A reader at the beginning of a response.
    pub fn new() -> (reader: Self)
        ensures
            reader@ == start(),
    {
        let reader = StreamReader {
            text: String::new(),
            calls: Vec::new(),
            finish_reason: None,
            saw_data: false,
            fallback_body: String::new(),
        };
        assert(reader@.calls =~= start().calls);
        reader
    }

    /// Merge the tool-call fragments of an event, in order.
    fn merge_fragments(&mut self, fragments: &Vec<Json>) -> (done: Result<(), ModelError>)
        ensures
            final(self)@.text == old(self)@.text,
            final(self)@.finish_reason == old(self)@.finish_reason,
            final(self)@.saw_data == old(self)@.saw_data,
            final(self)@.fallback == old(self)@.fallback,
            match done {
                Ok(()) => merged_all(old(self)@.calls, items_view(fragments@), fragments@.len()) is Ok
                    && merged_all(
                    old(self)@.calls,
                    items_view(fragments@),
                    fragments@.len(),
                )->Ok_0 == final(self)@.calls,
                Err(error) => merged_all(
                    old(self)@.calls,
                    items_view(fragments@),
                    fragments@.len(),
                ) is Err && merged_all(
                    old(self)@.calls,
                    items_view(fragments@),
                    fragments@.len(),
                )->Err_0 == error.0@,
            },
    {
        let ghost calls = self@.calls;
        let ghost all = items_view(fragments@);
        proof {
            lemma_items_view(fragments@);
        }
        let mut i: usize = 0;
        while i < fragments.len()
            invariant
                calls == old(self)@.calls,
                all == items_view(fragments@),
                all.len() == fragments@.len(),
                i <= fragments@.len(),
                self@.text == old(self)@.text,
                self@.finish_reason == old(self)@.finish_reason,
                self@.saw_data == old(self)@.saw_data,
                self@.fallback == old(self)@.fallback,
                merged_all(calls, all, i as nat) is Ok,
                merged_all(calls, all, i as nat)->Ok_0 == self@.calls,
            decreases fragments@.len() - i,
        {
            proof {
                lemma_items_view(fragments@);
            }
            let merge = merge_tool_fragment(&mut self.calls, &fragments[i]);
            if let Err(error) = merge {
                proof {
                    lemma_merge_stays_failed(calls, all, (i + 1) as nat, fragments@.len());
                }
                return Err(error);
            }
            i += 1;
        }
        Ok(())
    }

    /// Take in one event. The text that it adds comes back for streaming.
    pub fn chunk(&mut self, chunk: &Json) -> (read: LineRead)
        ensures
            says(read, final(self)@, after_chunk(old(self)@, chunk@)),
    {
        let ghost line = after_chunk(self@, chunk@);
        if let Some(message) = chunk.get("error") {
            let mut error = "server error: ".to_owned();
            error.append(message.to_string().as_str());
            return LineRead { token: None, status: LineStatus::Failed(ModelError(error)) };
        }
        let choice = chunk.key("choices").index(0);
        if let Some(reason) = choice.key("finish_reason").as_str() {
            self.finish_reason = Some(reason.to_owned());
        }
        let delta = choice.key("delta");
        let mut token: Option<String> = None;
        if let Some(content) = delta.key("content").as_str() {
            if !content.is_empty() {
                self.text.append(content);
                token = Some(content.to_owned());
            }
        }
        if let Some(fragments) = delta.key("tool_calls").as_array() {
            proof {
                lemma_items_view(fragments@);
            }
            if let Err(error) = self.merge_fragments(fragments) {
                return LineRead { token, status: LineStatus::Failed(error) };
            }
        }
        LineRead { token, status: LineStatus::More }
    }

    /// Take in one line. The text that it adds comes back for streaming.
    pub fn line(&mut self, line: &str) -> (read: LineRead)
        ensures
            says(read, final(self)@, after_line(old(self)@, line@)),
    {
        proof {
            reveal_strlit("data: ");
        }
        if !text::starts_with(line, "data: ") {
            if !self.saw_data && self.fallback_body.as_str().as_bytes().len() < MAX_FALLBACK_BODY {
                self.fallback_body.append(line);
            }
            return LineRead { token: None, status: LineStatus::More };
        }
        let len: usize = line.unicode_len();
        let payload = line.substring_char(6, len);
        assert(payload@ =~= line@.skip(6));
        self.saw_data = true;
        if text::same(text::trim(payload), "[DONE]") {
            return LineRead { token: None, status: LineStatus::Done };
        }
        match json::parse(payload) {
            Err(reason) => {
                let mut error = "bad stream chunk: ".to_owned();
                error.append(reason.as_str());
                error.append(" in ");
                error.append(payload);
                LineRead { token: None, status: LineStatus::Failed(ModelError(error)) }
            },
            Ok(chunk) => self.chunk(&chunk),
        }
    }

    /// Take in the end of the response: the reply, and text still to stream.
    pub fn finish(&self) -> (end: (Option<String>, Result<ModelTurn, ModelError>))
        ensures
            token_chunks(token_view(end.0)) == finished(self@).0,
            reply_view(end.1) == finished(self@).1,
    {
        if !self.saw_data {
            let reply = parse_plain_completion(self.fallback_body.as_str());
            let token = match &reply {
                Ok(turn) => if turn.text.as_str().is_empty() {
                    None
                } else {
                    Some(turn.text.clone())
                },
                Err(_) => None,
            };
            return (token, reply);
        }
        if let Some(reason) = &self.finish_reason {
            if text::same(reason.as_str(), "length") {
                return (
                    None,
                    Err(
                        ModelError(
                            "model response was truncated (finish_reason=length); raise the server's output token limit".to_owned(),
                        ),
                    ),
                );
            }
        }
        (
            None,
            Ok(
                ModelTurn {
                    text: self.text.clone(),
                    tool_calls: finalize_calls(&self.calls),
                },
            ),
        )
    }
}

/// Fragments behind one that failed change nothing.
proof fn lemma_merge_stays_failed(
    calls: Seq<PartialView>,
    fragments: Seq<JsonView>,
    k: nat,
    n: nat,
)
    requires
        k <= n,
        merged_all(calls, fragments, k) is Err,
    ensures
        merged_all(calls, fragments, n) == merged_all(calls, fragments, k),
    decreases n,
{
    if k < n {
        lemma_merge_stays_failed(calls, fragments, k, (n - 1) as nat);
    }
}

/// The reply that a plain completion makes.
pub fn plain_completion(value: &Json) -> (reply: Result<ModelTurn, ModelError>)
    ensures
        reply_view(reply) == plain_reply(value@),
{
    if let Some(message) = value.get("error") {
        let mut error = "server error: ".to_owned();
        error.append(message.to_string().as_str());
        return Err(ModelError(error));
    }
    let message = value.key("choices").index(0).key("message");
    if message.is_null() {
        return Err(ModelError("response contained no choices".to_owned()));
    }
    let text = match message.key("content").as_str() {
        Some(content) => content.to_owned(),
        None => String::new(),
    };
    let mut tool_calls: Vec<ToolCallRequest> = Vec::new();
    assert(crate::event::calls_view(tool_calls@) =~= Seq::<CallView>::empty());
    if let Some(entries) = message.key("tool_calls").as_array() {
        let ghost all = items_view(entries@);
        let mut i: usize = 0;
        while i < entries.len()
            invariant
                all == items_view(entries@),
                i <= entries@.len(),
                crate::event::calls_view(tool_calls@) == plain_calls(all, i as nat),
            decreases entries@.len() - i,
        {
            let entry = &entries[i];
            let ghost before = tool_calls@;
            proof {
                lemma_items_view(entries@);
            }
            let function = entry.key("function");
            if let Some(name) = function.key("name").as_str() {
                let id = match entry.key("id").as_str() {
                    Some(id) => id.to_owned(),
                    None => id_of_position(i),
                };
                let args_json = match function.key("arguments").as_str() {
                    Some(args) => args.to_owned(),
                    None => "{}".to_owned(),
                };
                let request = ToolCallRequest { id, name: name.to_owned(), args_json };
                tool_calls.push(request);
                assert(crate::event::calls_view(tool_calls@) =~= crate::event::calls_view(
                    before,
                ).push(request@));
            }
            i += 1;
        }
        proof {
            lemma_items_view(entries@);
        }
    }
    Ok(ModelTurn { text, tool_calls })
}

/// Parse a body that is no event stream as a completion, as gateways return
/// that ignore the request to stream.
fn parse_plain_completion(body: &str) -> (reply: Result<ModelTurn, ModelError>)
    ensures
        reply_view(reply) == body_reply(body@),
{
    match json::parse(text::trim(body)) {
        Ok(value) => plain_completion(&value),
        Err(_) => Err(
            ModelError(
                "response contained no SSE data and is not a chat completion — the endpoint may not be OpenAI-compatible".to_owned(),
            ),
        ),
    }
}

/// Where the lines of a response come from.
pub trait LineSource: Send {
    /// Whether the lines to come may begin with `lines`, read with a patience
    /// of `idle_secs` seconds, and, where `ended`, be no more than those. Of a
    /// source that says no more, any lines may come.
    open spec fn may_bring(&self, idle_secs: u64, lines: Seq<LineResult>, ended: bool) -> bool {
        true
    }

    /// The next line without its line end, why reading failed, or `None` at
    /// the end of the response. Silence for more than `idle_secs` seconds is a
    /// failure; a response that keeps coming is never interrupted.
    fn next_line(&mut self, idle_secs: u64) -> (line: Option<Result<String, String>>)
        ensures
            match line {
                None => old(self).may_bring(idle_secs, seq![], true),
                Some(line) => old(self).may_bring(idle_secs, seq![line_result(line)], false)
                    && forall|rest: Seq<LineResult>, ended: bool| #[trigger]
                    final(self).may_bring(idle_secs, rest, ended) ==> old(self).may_bring(
                        idle_secs,
                        seq![line_result(line)] + rest,
                        ended,
                    ),
            },
    ;
}

/// What reading a line came to.
pub open spec fn line_result(line: Result<String, String>) -> LineResult {
    match line {
        Ok(line) => Ok(line@),
        Err(error) => Err(error@),
    }
}

/// Whether the given lines settle a response, from a state on: one of them
/// ends it or fails it.
pub open spec fn settles(state: StreamView, lines: Seq<LineResult>) -> bool
    decreases lines.len(),
{
    if lines.len() == 0 {
        false
    } else {
        match lines[0] {
            Err(_) => true,
            Ok(line) => match after_line(state, line).verdict {
                Verdict::More => settles(after_line(state, line).state, lines.skip(1)),
                _ => true,
            },
        }
    }
}

/// Whether a response is read far enough: to its end, or to where it is
/// settled. More lines than a 64-bit number can count are not read.
pub open spec fn is_read(lines: Seq<LineResult>, ended: bool) -> bool {
    ended || settles(start(), lines) || lines.len() == u64::MAX
}

/// The outcome with chunks that were streamed before.
pub open spec fn behind(
    chunks: Seq<Seq<char>>,
    rest: (Seq<Seq<char>>, ReplyView),
) -> (Seq<Seq<char>>, ReplyView) {
    (chunks + rest.0, rest.1)
}

/// Chunks streamed one after the other add up.
proof fn lemma_chunks_push(chunks: Seq<Seq<char>>, token: Seq<char>)
    ensures
        deltas(chunks.push(token)) == deltas(chunks).push(EventView::TokenDelta(token)),
        joined(chunks.push(token)) == joined(chunks) + token,
{
    assert(deltas(chunks.push(token)) =~= deltas(chunks).push(EventView::TokenDelta(token)));
    assert(chunks.push(token).drop_last() =~= chunks);
}

/// Whether `stream` is `before` with `chunks` streamed into it, or, where that
/// is silent, `before` as it was.
pub open spec fn streamed_into(
    before: EventStream,
    stream: EventStream,
    silent: bool,
    chunks: Seq<Seq<char>>,
) -> bool {
    if silent {
        stream.events() == before.events() && stream.streamed() == before.streamed()
    } else {
        stream.events() == before.events() + deltas(chunks) && stream.streamed()
            == before.streamed() + joined(chunks)
    }
}

/// Stream a token, if there is one, unless `silent`.
fn pass_on(
    token: &Option<String>,
    silent: bool,
    on_token: &mut EventStream,
    Ghost(before): Ghost<EventStream>,
    Ghost(chunks): Ghost<Seq<Seq<char>>>,
)
    requires
        streamed_into(before, *old(on_token), silent, chunks),
    ensures
        streamed_into(
            before,
            *final(on_token),
            silent,
            chunks + token_chunks(token_view(*token)),
        ),
{
    match token {
        Some(token) => {
            proof {
                lemma_chunks_push(chunks, token@);
                assert(chunks + seq![token@] =~= chunks.push(token@));
            }
            if !silent {
                on_token.token(token.as_str());
                proof {
                    assert(on_token.events() =~= before.events() + deltas(chunks.push(token@)));
                    assert(on_token.streamed() =~= before.streamed() + joined(
                        chunks.push(token@),
                    ));
                }
            }
        },
        None => {
            assert(chunks + Seq::<Seq<char>>::empty() =~= chunks);
        },
    }
}

/// Reading one line more is a step of the whole reading.
proof fn lemma_outcome_step(state: StreamView, line: Seq<char>, rest: Seq<LineResult>)
    ensures
        ({
            let read = after_line(state, line);
            let lines = seq![Ok::<Seq<char>, Seq<char>>(line)] + rest;
            outcome(state, lines) == behind(
                token_chunks(read.token),
                match read.verdict {
                    Verdict::More => outcome(read.state, rest),
                    Verdict::Done => finished(read.state),
                    Verdict::Failed(error) => (seq![], Err(error)),
                },
            ) && settles(state, lines) == (read.verdict is More ==> settles(read.state, rest))
        }),
{
    let lines = seq![Ok::<Seq<char>, Seq<char>>(line)] + rest;
    assert(lines.skip(1) =~= rest);
}

/// Whether reading on from `reader`, behind `lines` and `chunks`, is reading
/// from the start.
#[verifier::opaque]
spec fn reads_on(lines: Seq<LineResult>, chunks: Seq<Seq<char>>, reader: StreamView) -> bool {
    forall|rest: Seq<LineResult>|
        {
            &&& #[trigger] outcome(start(), lines + rest) == behind(chunks, outcome(reader, rest))
            &&& settles(start(), lines + rest) == settles(reader, rest)
        }
}

proof fn lemma_reads_from_start()
    ensures
        reads_on(seq![], seq![], start()),
{
    reveal(reads_on);
    let none = Seq::<LineResult>::empty();
    let chunks = Seq::<Seq<char>>::empty();
    assert forall|rest: Seq<LineResult>|
        {
            &&& #[trigger] outcome(start(), none + rest) == behind(chunks, outcome(start(), rest))
            &&& settles(start(), none + rest) == settles(start(), rest)
        } by {
        assert(none + rest =~= rest);
        assert(chunks + outcome(start(), rest).0 =~= outcome(start(), rest).0);
    }
}

/// What reading on comes to, given the lines to come.
proof fn lemma_reads_rest(
    lines: Seq<LineResult>,
    chunks: Seq<Seq<char>>,
    reader: StreamView,
    rest: Seq<LineResult>,
)
    requires
        reads_on(lines, chunks, reader),
    ensures
        outcome(start(), lines + rest) == behind(chunks, outcome(reader, rest)),
        settles(start(), lines + rest) == settles(reader, rest),
{
    reveal(reads_on);
    assert(outcome(start(), lines + rest) == behind(chunks, outcome(reader, rest)));
}

/// Where reading stands when no line is left.
proof fn lemma_reads_end(lines: Seq<LineResult>, chunks: Seq<Seq<char>>, reader: StreamView)
    requires
        reads_on(lines, chunks, reader),
    ensures
        outcome(start(), lines) == behind(chunks, finished(reader)),
{
    let none = Seq::<LineResult>::empty();
    lemma_reads_rest(lines, chunks, reader, none);
    assert(lines + none =~= lines);
}

/// What a line that failed to be read comes to.
proof fn lemma_reads_failure(
    lines: Seq<LineResult>,
    chunks: Seq<Seq<char>>,
    reader: StreamView,
    reason: Seq<char>,
)
    requires
        reads_on(lines, chunks, reader),
    ensures
        ({
            let all = lines + seq![Err::<Seq<char>, Seq<char>>(reason)];
            &&& outcome(start(), all) == (chunks, Err::<TurnView, Seq<char>>(
                "stream read failed: "@ + reason,
            ))
            &&& settles(start(), all)
        }),
{
    let last: Seq<LineResult> = seq![Err::<Seq<char>, Seq<char>>(reason)];
    lemma_reads_rest(lines, chunks, reader, last);
    assert(chunks + Seq::<Seq<char>>::empty() =~= chunks);
}

/// What a line comes to: reading goes on behind it, or it settles the
/// response.
proof fn lemma_reads_line(
    lines: Seq<LineResult>,
    chunks: Seq<Seq<char>>,
    reader: StreamView,
    line: Seq<char>,
)
    requires
        reads_on(lines, chunks, reader),
    ensures
        ({
            let all = lines + seq![Ok::<Seq<char>, Seq<char>>(line)];
            let read = after_line(reader, line);
            let more = chunks + token_chunks(read.token);
            match read.verdict {
                Verdict::More => reads_on(all, more, read.state),
                Verdict::Done => outcome(start(), all) == behind(more, finished(read.state))
                    && settles(start(), all),
                Verdict::Failed(error) => outcome(start(), all) == (
                    more,
                    Err::<TurnView, Seq<char>>(error),
                ) && settles(start(), all),
            }
        }),
{
    let last: Seq<LineResult> = seq![Ok::<Seq<char>, Seq<char>>(line)];
    let read = after_line(reader, line);
    let token = token_chunks(read.token);
    let more = chunks + token;
    match read.verdict {
        Verdict::More => {
            reveal(reads_on);
            assert forall|rest: Seq<LineResult>|
                {
                    &&& #[trigger] outcome(start(), (lines + last) + rest) == behind(
                        more,
                        outcome(read.state, rest),
                    )
                    &&& settles(start(), (lines + last) + rest) == settles(read.state, rest)
                } by {
                lemma_outcome_step(reader, line, rest);
                lemma_reads_rest(lines, chunks, reader, last + rest);
                assert((lines + last) + rest =~= lines + (last + rest));
                assert(chunks + (token + outcome(read.state, rest).0) =~= more + outcome(
                    read.state,
                    rest,
                ).0);
            }
        },
        _ => {
            let none = Seq::<LineResult>::empty();
            lemma_outcome_step(reader, line, none);
            assert(last + none =~= last);
            lemma_reads_rest(lines, chunks, reader, last);
            assert(chunks + (token + finished(read.state).0) =~= more + finished(read.state).0);
            assert(chunks + (token + Seq::<Seq<char>>::empty()) =~= more);
        },
    }
}

/// Whether the lines that `origin` brings are those of `source` behind `lines`.
#[verifier::opaque]
spec fn brings_on(
    source: Held<Box<dyn LineSource>>,
    origin: Held<Box<dyn LineSource>>,
    idle_secs: u64,
    lines: Seq<LineResult>,
) -> bool {
    forall|rest: Seq<LineResult>, ended: bool| #[trigger]
        origin.value.may_bring(idle_secs, rest, ended) ==> source.value.may_bring(
            idle_secs,
            lines + rest,
            ended,
        )
}

proof fn lemma_brings_from_start(source: Held<Box<dyn LineSource>>, idle_secs: u64)
    ensures
        brings_on(source, source, idle_secs, seq![]),
{
    reveal(brings_on);
    let none = Seq::<LineResult>::empty();
    assert forall|rest: Seq<LineResult>, ended: bool| #[trigger]
        source.value.may_bring(idle_secs, rest, ended) implies source.value.may_bring(
        idle_secs,
        none + rest,
        ended,
    ) by {
        assert(none + rest =~= rest);
    }
}

/// What is brought next is brought behind what was.
proof fn lemma_brings_next(
    source: Held<Box<dyn LineSource>>,
    before: Held<Box<dyn LineSource>>,
    after: Held<Box<dyn LineSource>>,
    idle_secs: u64,
    lines: Seq<LineResult>,
    line: LineResult,
)
    requires
        brings_on(source, before, idle_secs, lines),
        before.value.may_bring(idle_secs, seq![line], false),
        forall|rest: Seq<LineResult>, ended: bool| #[trigger]
            after.value.may_bring(idle_secs, rest, ended) ==> before.value.may_bring(
                idle_secs,
                seq![line] + rest,
                ended,
            ),
    ensures
        source.value.may_bring(idle_secs, lines + seq![line], false),
        brings_on(source, after, idle_secs, lines + seq![line]),
{
    reveal(brings_on);
    assert forall|rest: Seq<LineResult>, ended: bool| #[trigger]
        after.value.may_bring(idle_secs, rest, ended) implies source.value.may_bring(
        idle_secs,
        (lines + seq![line]) + rest,
        ended,
    ) by {
        assert((lines + seq![line]) + rest =~= lines + (seq![line] + rest));
    }
}

proof fn lemma_brings_end(
    source: Held<Box<dyn LineSource>>,
    before: Held<Box<dyn LineSource>>,
    idle_secs: u64,
    lines: Seq<LineResult>,
)
    requires
        brings_on(source, before, idle_secs, lines),
        before.value.may_bring(idle_secs, seq![], true),
    ensures
        source.value.may_bring(idle_secs, lines, true),
{
    reveal(brings_on);
    let none = Seq::<LineResult>::empty();
    assert(lines + none =~= lines);
    assert(source.value.may_bring(idle_secs, lines + none, true));
}

/// Read a response to completion, streaming its text into `on_token` unless
/// `silent`. The lines that were read come back as a ghost, with whether they
/// are all.
#[verifier::spinoff_prover]
pub fn read_stream(
    source: Held<Box<dyn LineSource>>,
    idle_secs: u64,
    silent: bool,
    on_token: &mut EventStream,
) -> (read: (Result<ModelTurn, ModelError>, Ghost<(Seq<LineResult>, bool)>))
    ensures
        source.value.may_bring(idle_secs, read.1@.0, read.1@.1),
        is_read(read.1@.0, read.1@.1),
        reply_view(read.0) == outcome(start(), read.1@.0).1,
        streamed_into(*old(on_token), *final(on_token), silent, outcome(start(), read.1@.0).0),
{
    let mut origin = source;
    let mut reader = StreamReader::new();
    let ghost before = *on_token;
    let ghost mut lines: Seq<LineResult> = seq![];
    let ghost mut chunks: Seq<Seq<char>> = seq![];
    let ghost mut ended = false;
    // A response of more lines than this counts as one that ends here.
    let mut budget: u64 = u64::MAX;
    let mut open = true;
    proof {
        lemma_reads_from_start();
        lemma_brings_from_start(source, idle_secs);
        assert(before.events() + deltas(chunks) =~= before.events());
        assert(before.streamed() + joined(chunks) =~= before.streamed());
    }
    while open && budget > 0
        invariant
            before == *old(on_token),
            streamed_into(before, *on_token, silent, chunks),
            lines.len() + budget == u64::MAX || !open,
            open ==> reads_on(lines, chunks, reader@),
            open ==> brings_on(source, origin, idle_secs, lines),
            open && lines.len() > 0 ==> source.value.may_bring(idle_secs, lines, false),
            open ==> !ended,
            !open ==> outcome(start(), lines) == behind(chunks, finished(reader@)),
            !open ==> source.value.may_bring(idle_secs, lines, ended) && is_read(lines, ended),
        decreases budget,
    {
        budget -= 1;
        let ghost state = reader@;
        let ghost unread = origin;
        let next = origin.value.next_line(idle_secs);
        match next {
            None => {
                open = false;
                proof {
                    lemma_brings_end(source, unread, idle_secs, lines);
                    lemma_reads_end(lines, chunks, state);
                    ended = true;
                }
            },
            Some(Err(reason)) => {
                let mut error = "stream read failed: ".to_owned();
                error.append(reason.as_str());
                proof {
                    lemma_brings_next(source, unread, origin, idle_secs, lines, Err(reason@));
                    lemma_reads_failure(lines, chunks, state, reason@);
                    lines = lines + seq![Err::<Seq<char>, Seq<char>>(reason@)];
                }
                return (Err(ModelError(error)), Ghost((lines, false)));
            },
            Some(Ok(line)) => {
                let read = reader.line(line.as_str());
                pass_on(&read.token, silent, on_token, Ghost(before), Ghost(chunks));
                proof {
                    lemma_brings_next(source, unread, origin, idle_secs, lines, Ok(line@));
                    lemma_reads_line(lines, chunks, state, line@);
                    lines = lines + seq![Ok::<Seq<char>, Seq<char>>(line@)];
                    chunks = chunks + token_chunks(token_view(read.token));
                }
                match read.status {
                    LineStatus::More => {},
                    LineStatus::Done => {
                        open = false;
                    },
                    LineStatus::Failed(error) => {
                        return (Err(error), Ghost((lines, false)));
                    },
                }
            },
        }
    }
    proof {
        if open {
            lemma_reads_end(lines, chunks, reader@);
        }
    }
    let (token, reply) = reader.finish();
    pass_on(&token, silent, on_token, Ghost(before), Ghost(chunks));
    (reply, Ghost((lines, ended)))
}

/// Joining is associative: chunks in two parts give two texts.
proof fn lemma_joined_parts(first: Seq<Seq<char>>, second: Seq<Seq<char>>)
    ensures
        joined(first + second) == joined(first) + joined(second),
    decreases second.len(),
{
    if second.len() == 0 {
        assert(first + second =~= first);
        assert(joined(first + second) =~= joined(first) + joined(second));
    } else {
        lemma_joined_parts(first, second.drop_last());
        assert((first + second).drop_last() =~= first + second.drop_last());
        assert((first + second).last() == second.last());
        assert(joined(first + second) =~= joined(first) + joined(second));
    }
}

/// A state that reading can come to: no text before the first event, and no
/// more calls than the cap.
pub open spec fn is_reached(state: StreamView) -> bool {
    &&& !state.saw_data ==> state.text.len() == 0
    &&& state.calls.len() <= MAX_STREAM_TOOL_CALLS
}

/// Whatever a fragment holds, it adds at most one call and changes at most one
/// that is there; it is refused only at the cap, and one that says nothing
/// changes nothing.
pub proof fn law_fragments_touch_one_call(calls: Seq<PartialView>, fragment: JsonView)
    ensures
        match merged(calls, fragment) {
            Ok(after) => calls.len() <= after.len() <= calls.len() + 1 && forall|i: int|
                0 <= i < calls.len() && i != target_slot(calls, fragment) ==> #[trigger] after[i]
                    == calls[i],
            Err(_) => calls.len() >= MAX_STREAM_TOOL_CALLS,
        },
        fragment_id(fragment) is None && fragment_name(fragment) is None && fragment_args(
            fragment,
        ) is None ==> merged(calls, fragment) == Ok::<Seq<PartialView>, Seq<char>>(calls),
{
}

/// However a server numbers its fragments, no more calls than the cap are
/// ever held.
pub proof fn law_calls_stay_capped(calls: Seq<PartialView>, fragments: Seq<JsonView>, n: nat)
    requires
        calls.len() <= MAX_STREAM_TOOL_CALLS,
        merged_all(calls, fragments, n) is Ok,
    ensures
        merged_all(calls, fragments, n)->Ok_0.len() <= MAX_STREAM_TOOL_CALLS,
    decreases n,
{
    if n > 0 {
        law_calls_stay_capped(calls, fragments, (n - 1) as nat);
    }
}

/// Reading a line leads from one state that reading can come to to another.
pub proof fn law_lines_keep_reached(state: StreamView, line: Seq<char>)
    requires
        is_reached(state),
        !(after_line(state, line).verdict is Failed),
    ensures
        is_reached(after_line(state, line).state),
{
    if is_at(line, "data: "@, 0) {
        let payload = line.skip(6);
        if let Ok(chunk) = parsed(payload) {
            let delta = at_key(at_index(at_key(chunk, "choices"@), 0), "delta"@);
            if let Some(fragments) = items_in(at_key(delta, "tool_calls"@)) {
                if merged_all(state.calls, fragments, fragments.len()) is Ok {
                    law_calls_stay_capped(state.calls, fragments, fragments.len());
                }
            }
        }
    }
}

/// What is streamed is what is answered: the chunks of a response that
/// succeeds make up the text of its reply, no more and no less.
pub proof fn law_streamed_text_is_the_reply(state: StreamView, lines: Seq<LineResult>)
    requires
        is_reached(state),
        outcome(state, lines).1 is Ok,
    ensures
        outcome(state, lines).1->Ok_0.text == state.text + joined(outcome(state, lines).0),
    decreases lines.len(),
{
    let (chunks, reply) = outcome(state, lines);
    if lines.len() == 0 {
        lemma_finished_text(state);
    } else {
        let line = lines[0]->Ok_0;
        let read = after_line(state, line);
        law_lines_keep_reached(state, line);
        let rest = match read.verdict {
            Verdict::More => outcome(read.state, lines.skip(1)),
            Verdict::Done => finished(read.state),
            Verdict::Failed(error) => (seq![], Err(error)),
        };
        match read.verdict {
            Verdict::More => law_streamed_text_is_the_reply(read.state, lines.skip(1)),
            Verdict::Done => lemma_finished_text(read.state),
            Verdict::Failed(_) => {},
        }
        let token = token_chunks(read.token);
        lemma_joined_parts(token, rest.0);
        if let Some(content) = read.token {
            lemma_joined_one(content);
        }
        assert(read.state.text =~= state.text + joined(token));
        assert(reply->Ok_0.text =~= state.text + joined(chunks));
    }
}

proof fn lemma_joined_one(chunk: Seq<char>)
    ensures
        joined(seq![chunk]) == chunk,
{
    assert(seq![chunk].drop_last() =~= Seq::<Seq<char>>::empty());
    assert(joined(seq![chunk].drop_last()) =~= Seq::<char>::empty());
    assert(joined(seq![chunk]) =~= chunk);
}

proof fn lemma_finished_text(state: StreamView)
    requires
        is_reached(state),
        finished(state).1 is Ok,
    ensures
        finished(state).1->Ok_0.text == state.text + joined(finished(state).0),
{
    if !state.saw_data {
        let text = body_reply(state.fallback)->Ok_0.text;
        if text.len() > 0 {
            lemma_joined_one(text);
        }
    }
    assert(finished(state).1->Ok_0.text =~= state.text + joined(finished(state).0));
}

/// A fragment completes the call that it belongs to: an id or a name that it
/// brings takes the place of the one before, and its arguments come behind
/// those that have arrived.
pub proof fn law_fragments_complete_their_call(calls: Seq<PartialView>, fragment: JsonView)
    requires
        merged(calls, fragment) is Ok,
        target_slot(calls, fragment) < merged(calls, fragment)->Ok_0.len(),
    ensures
        ({
            let slot = target_slot(calls, fragment);
            let function = at_key(fragment, "function"@);
            let known = if slot < calls.len() {
                calls[slot]
            } else {
                PartialView { id: seq![], name: seq![], args: seq![] }
            };
            let call = merged(calls, fragment)->Ok_0[slot];
            &&& 0 <= slot <= calls.len()
            &&& call.id == match at_key(fragment, "id"@) {
                JsonView::Text(id) => id,
                _ => known.id,
            }
            &&& call.name == match at_key(function, "name"@) {
                JsonView::Text(name) => name,
                _ => known.name,
            }
            &&& call.args == match at_key(function, "arguments"@) {
                JsonView::Text(args) => known.args + args,
                _ => known.args,
            }
        }),
{
    let slot = target_slot(calls, fragment);
    if slot < calls.len() {
        assert(with_fragment(calls[slot], fragment).args =~= merged(calls, fragment)->Ok_0[slot].args);
    } else {
        assert(Seq::<char>::empty() + match at_key(at_key(fragment, "function"@), "arguments"@) {
            JsonView::Text(args) => args,
            _ => seq![],
        } =~= match at_key(at_key(fragment, "function"@), "arguments"@) {
            JsonView::Text(args) => args,
            _ => seq![],
        });
    }
}

/// Which call a fragment belongs to: the one at its index, or without an index
/// the last; a new one where none stands there, where it brings another id
/// than that call has, or where it names a call again that has a name and
/// arguments.
pub proof fn law_fragments_find_their_call(calls: Seq<PartialView>, fragment: JsonView)
    ensures
        ({
            let slot = target_slot(calls, fragment);
            let meant = match at_key(fragment, "index"@) {
                JsonView::Unsigned(index) => index as int,
                _ => calls.len() - 1,
            };
            let id = at_key(fragment, "id"@);
            let name = at_key(at_key(fragment, "function"@), "name"@);
            &&& !(0 <= meant < calls.len()) ==> slot == calls.len()
            &&& 0 <= meant < calls.len() ==> {
                let call = calls[meant];
                &&& id is Text && id == JsonView::Text(call.id) && call.id.len() > 0 ==> slot
                    == meant
                &&& id is Text && id != JsonView::Text(call.id) && call.id.len() > 0 ==> slot
                    == calls.len()
                &&& !(id is Text) && !(name is Text) ==> slot == meant
                &&& !(id is Text) && name is Text ==> slot == if call.name.len() > 0
                    && call.args.len() > 0 {
                    calls.len() as int
                } else {
                    meant
                }
            }
        }),
{
}

/// Arguments that arrive in two pieces are the arguments that arrive in one.
pub proof fn law_argument_pieces_join(
    call: PartialView,
    first: JsonView,
    second: JsonView,
    whole: JsonView,
)
    requires
        at_key(at_key(first, "function"@), "arguments"@) is Text,
        at_key(at_key(second, "function"@), "arguments"@) is Text,
        at_key(at_key(whole, "function"@), "arguments"@) == JsonView::Text(
            at_key(at_key(first, "function"@), "arguments"@)->Text_0 + at_key(
                at_key(second, "function"@),
                "arguments"@,
            )->Text_0,
        ),
    ensures
        with_fragment(with_fragment(call, first), second).args == with_fragment(call, whole).args,
{
    assert(with_fragment(with_fragment(call, first), second).args =~= with_fragment(
        call,
        whole,
    ).args);
}

/// Every call with a name is requested, in the order of the calls, and those
/// without one are not.
pub proof fn law_named_calls_are_requested(calls: Seq<PartialView>)
    ensures
        finalized(calls).map_values(|call: CallView| call.name) == calls.filter(
            |call: PartialView| call.name.len() > 0,
        ).map_values(|call: PartialView| call.name),
    decreases calls.len(),
{
    reveal(Seq::filter);
    let named = |call: PartialView| call.name.len() > 0;
    if calls.len() > 0 {
        law_named_calls_are_requested(calls.drop_last());
        let before = finalized(calls.drop_last());
        let kept = calls.drop_last().filter(named);
        if calls.last().name.len() > 0 {
            assert(finalized(calls).map_values(|call: CallView| call.name)
                =~= before.map_values(|call: CallView| call.name).push(calls.last().name));
            assert(calls.filter(named).map_values(|call: PartialView| call.name)
                =~= kept.map_values(|call: PartialView| call.name).push(calls.last().name));
        }
    } else {
        assert(finalized(calls).map_values(|call: CallView| call.name) =~= seq![]);
        assert(calls.filter(named).map_values(|call: PartialView| call.name) =~= seq![]);
    }
}

/// Where every call has a name, each is requested as it arrived: with its own
/// id, or one made of its position where it has none, and with its arguments,
/// or an empty object where none arrived.
pub proof fn law_calls_are_requested_as_they_arrived(calls: Seq<PartialView>, i: int)
    requires
        forall|k: int| 0 <= k < calls.len() ==> (#[trigger] calls[k]).name.len() > 0,
        0 <= i < calls.len(),
    ensures
        finalized(calls).len() == calls.len(),
        finalized(calls)[i].name == calls[i].name,
        calls[i].id.len() > 0 ==> finalized(calls)[i].id == calls[i].id,
        calls[i].id.len() == 0 ==> finalized(calls)[i].id == "call-"@ + decimal(i as nat),
        calls[i].args.len() > 0 ==> finalized(calls)[i].args_json == calls[i].args,
        calls[i].args.len() == 0 ==> finalized(calls)[i].args_json == "{}"@,
    decreases calls.len(),
{
    let shorter = calls.drop_last();
    assert(calls.last().name.len() > 0);
    lemma_finalized_len(shorter);
    if i < calls.len() - 1 {
        assert forall|k: int| 0 <= k < shorter.len() implies (#[trigger] shorter[k]).name.len()
            > 0 by {
            assert(shorter[k] == calls[k]);
        }
        law_calls_are_requested_as_they_arrived(shorter, i);
        assert(shorter[i] == calls[i]);
    }
}

/// Where every call has a name, each is requested.
proof fn lemma_finalized_len(calls: Seq<PartialView>)
    requires
        forall|k: int| 0 <= k < calls.len() ==> (#[trigger] calls[k]).name.len() > 0,
    ensures
        finalized(calls).len() == calls.len(),
    decreases calls.len(),
{
    if calls.len() > 0 {
        let shorter = calls.drop_last();
        assert forall|k: int| 0 <= k < shorter.len() implies (#[trigger] shorter[k]).name.len()
            > 0 by {
            assert(shorter[k] == calls[k]);
        }
        assert(calls.last().name.len() > 0);
        lemma_finalized_len(shorter);
    }
}

/// What a chunk of the stream brings: an error ends the stream; content is
/// shown and comes behind the text so far; a reason to finish is kept.
pub proof fn law_chunks_bring_their_content(state: StreamView, chunk: JsonView)
    ensures
        member(chunk, "error"@) matches Some(error) ==> after_chunk(state, chunk).verdict
            == Verdict::Failed("server error: "@ + printed(error)) && after_chunk(
            state,
            chunk,
        ).token is None,
        member(chunk, "error"@) is None ==> {
            let choice = at_index(at_key(chunk, "choices"@), 0);
            let content = at_key(at_key(choice, "delta"@), "content"@);
            let read = after_chunk(state, chunk);
            &&& content matches JsonView::Text(said) ==> read.state.text == state.text + said
            &&& content matches JsonView::Text(said) ==> (if said.len() > 0 {
                read.token == Some(said)
            } else {
                read.token is None
            })
            &&& !(content is Text) ==> read.state.text == state.text && read.token is None
            &&& at_key(choice, "finish_reason"@) matches JsonView::Text(reason)
                ==> read.state.finish_reason == Some(reason)
            &&& !(at_key(choice, "finish_reason"@) is Text) ==> read.state.finish_reason
                == state.finish_reason
            &&& !(at_key(at_key(choice, "delta"@), "tool_calls"@) is Array) ==> {
                read.state.calls == state.calls && read.verdict is More
            }
            &&& at_key(at_key(choice, "delta"@), "tool_calls"@) matches JsonView::Array(list)
                ==> (merged_all(state.calls, list, list.len()) matches Ok(calls)
                ==> read.state.calls == calls && read.verdict is More)
        },
{
    let content = at_key(
        at_key(at_index(at_key(chunk, "choices"@), 0), "delta"@),
        "content"@,
    );
    if let JsonView::Text(said) = content {
        if said.len() == 0 {
            assert(state.text + said =~= state.text);
        }
    }
}

/// The fragments of a chunk are taken in one after the other.
pub proof fn law_fragments_are_taken_in_order(
    calls: Seq<PartialView>,
    fragments: Seq<JsonView>,
    n: nat,
    k: nat,
)
    requires
        k <= n <= fragments.len(),
        merged_all(calls, fragments, k) is Ok,
    ensures
        merged_all(calls, fragments, n) == merged_all(
            merged_all(calls, fragments, k)->Ok_0,
            fragments.skip(k as int),
            (n - k) as nat,
        ),
    decreases n,
{
    if n > k {
        law_fragments_are_taken_in_order(calls, fragments, (n - 1) as nat, k);
        assert(fragments.skip(k as int)[n - 1 - k] == fragments[n - 1]);
    }
}

/// A line of the stream is data behind "data: ": the mark of the end ends it,
/// and anything else is a chunk. All other lines are kept only as long as no
/// data has come, in case the response is no stream at all.
pub proof fn law_data_lines_are_read(state: StreamView, payload: Seq<char>)
    ensures
        ({
            let read = after_line(state, "data: "@ + payload);
            &&& read.state.saw_data
            &&& read.state.fallback == state.fallback
            &&& trimmed(payload) == "[DONE]"@ ==> read.verdict is Done && read.token is None
                && read.state.text == state.text && read.state.calls == state.calls
            &&& trimmed(payload) != "[DONE]"@ ==> match parsed(payload) {
                Ok(chunk) => {
                    let brought = after_chunk(StreamView { saw_data: true, ..state }, chunk);
                    read.token == brought.token && read.verdict == brought.verdict && read.state
                        == brought.state
                },
                Err(error) => read.verdict == Verdict::Failed(
                    "bad stream chunk: "@ + error + " in "@ + payload,
                ),
            }
        }),
{
    reveal_strlit("data: ");
    assert("data: "@.len() == 6);
    let line = "data: "@ + payload;
    assert(line.subrange(0, 6) =~= "data: "@);
    assert(line.skip(6) =~= payload);
}

/// A line that is no data leaves text and calls as they are, and is kept only
/// where no data has come yet and there is room.
pub proof fn law_other_lines_are_kept_aside(state: StreamView, line: Seq<char>)
    requires
        !is_at(line, "data: "@, 0),
    ensures
        ({
            let read = after_line(state, line);
            &&& read.verdict is More && read.token is None
            &&& read.state.text == state.text && read.state.calls == state.calls
            &&& read.state.finish_reason == state.finish_reason
            &&& read.state.saw_data == state.saw_data
            &&& state.saw_data ==> read.state.fallback == state.fallback
            &&& !state.saw_data && vstd::utf8::encode_utf8(state.fallback).len() < 262144
                ==> read.state.fallback == state.fallback + line
            &&& vstd::utf8::encode_utf8(state.fallback).len() >= 262144 ==> read.state.fallback
                == state.fallback
        }),
{
}

/// A response that is no stream gives its message: the content as text, and
/// its calls; an error as the server words it.
pub proof fn law_whole_responses_are_read(value: JsonView)
    ensures
        member(value, "error"@) matches Some(error) ==> plain_reply(value) == Err::<
            TurnView,
            Seq<char>,
        >("server error: "@ + printed(error)),
        member(value, "error"@) is None ==> {
            let message = at_key(at_index(at_key(value, "choices"@), 0), "message"@);
            &&& plain_reply(value) is Ok <==> !(message is Null)
            &&& plain_reply(value) matches Ok(turn) ==> {
                &&& turn.text == match at_key(message, "content"@) {
                    JsonView::Text(content) => content,
                    _ => seq![],
                }
                &&& !(at_key(message, "tool_calls"@) is Array) ==> turn.tool_calls.len() == 0
                &&& at_key(message, "tool_calls"@) matches JsonView::Array(list)
                    ==> turn.tool_calls == plain_calls(list, list.len())
            }
        },
{
}

/// Where every call of a whole response has a name, each is requested as it
/// stands there: with its own id, or one made of its position where it has
/// none, and with its arguments, or an empty object where there are none.
pub proof fn law_whole_calls_are_requested(entries: Seq<JsonView>, n: nat, i: int)
    requires
        n <= entries.len(),
        forall|k: int|
            0 <= k < n ==> at_key(at_key(#[trigger] entries[k], "function"@), "name"@) is Text,
        0 <= i < n,
    ensures
        plain_calls(entries, n).len() == n,
        at_key(at_key(entries[i], "function"@), "name"@) == JsonView::Text(
            plain_calls(entries, n)[i].name,
        ),
        plain_calls(entries, n)[i].id == match at_key(entries[i], "id"@) {
            JsonView::Text(id) => id,
            _ => "call-"@ + decimal(i as nat),
        },
        plain_calls(entries, n)[i].args_json == match at_key(
            at_key(entries[i], "function"@),
            "arguments"@,
        ) {
            JsonView::Text(args) => args,
            _ => "{}"@,
        },
    decreases n,
{
    assert(at_key(at_key(entries[n - 1], "function"@), "name"@) is Text);
    lemma_plain_calls_len(entries, (n - 1) as nat);
    if i < n - 1 {
        law_whole_calls_are_requested(entries, (n - 1) as nat, i);
    }
}

/// Where every entry has a name, each is a call.
proof fn lemma_plain_calls_len(entries: Seq<JsonView>, n: nat)
    requires
        n <= entries.len(),
        forall|k: int|
            0 <= k < n ==> at_key(at_key(#[trigger] entries[k], "function"@), "name"@) is Text,
    ensures
        plain_calls(entries, n).len() == n,
    decreases n,
{
    if n > 0 {
        assert(at_key(at_key(entries[n - 1], "function"@), "name"@) is Text);
        lemma_plain_calls_len(entries, (n - 1) as nat);
    }
}

/// An entry of a whole response without a name is no call.
pub proof fn law_nameless_entries_are_no_calls(entries: Seq<JsonView>, n: nat)
    requires
        0 < n <= entries.len(),
        !(at_key(at_key(entries[n - 1], "function"@), "name"@) is Text),
    ensures
        plain_calls(entries, n) == plain_calls(entries, (n - 1) as nat),
{
}

/// How a stream that has ended is answered: with its text and its calls, with
/// a failure where it was cut for its length, and where no data came at all
/// with what the response says as a whole.
pub proof fn law_streams_are_answered(state: StreamView)
    ensures
        state.saw_data && state.finish_reason == Some("length"@) ==> finished(state).1 is Err,
        state.saw_data && state.finish_reason != Some("length"@) ==> {
            &&& finished(state).1 is Ok
            &&& finished(state).1->Ok_0.text == state.text
            &&& finished(state).1->Ok_0.tool_calls == finalized(state.calls)
        },
        state.saw_data ==> finished(state).0.len() == 0,
        !state.saw_data ==> match parsed(trimmed(state.fallback)) {
            Ok(value) => finished(state).1 == plain_reply(value),
            Err(_) => finished(state).1 is Err,
        },
{
}

/// Lines are read one after the other: a line that cannot be had fails the
/// stream, one that ends it ends it, and after any other the rest is read.
pub proof fn law_lines_are_read_in_order(
    state: StreamView,
    line: Seq<char>,
    rest: Seq<LineResult>,
    error: Seq<char>,
)
    ensures
        outcome(state, seq![Err(error)] + rest).1 == Err::<TurnView, Seq<char>>(
            "stream read failed: "@ + error,
        ),
        ({
            let read = after_line(state, line);
            let all = outcome(state, seq![Ok(line)] + rest);
            &&& read.verdict is More ==> all.1 == outcome(read.state, rest).1
            &&& read.verdict is Done ==> all.1 == finished(read.state).1
            &&& read.verdict matches Verdict::Failed(why) ==> all.1 == Err::<TurnView, Seq<char>>(
                why,
            )
            &&& read.token matches Some(token) ==> all.0.len() > 0 && all.0[0] == token
        }),
{
    let broken = seq![Err::<Seq<char>, Seq<char>>(error)] + rest;
    assert(broken[0] == Err::<Seq<char>, Seq<char>>(error));
    let whole = seq![Ok::<Seq<char>, Seq<char>>(line)] + rest;
    assert(whole[0] == Ok::<Seq<char>, Seq<char>>(line));
    assert(whole.skip(1) =~= rest);
}

/// What reading a line came to is what the line brings: its token, how the
/// stream goes on, and, unless it fails, the state behind it.
pub proof fn law_readings_are_what_lines_bring(read: LineRead, state: StreamView, line: LineView)
    requires
        says(read, state, line),
    ensures
        read.token matches Some(token) ==> line.token == Some(token@),
        read.token is None ==> line.token is None,
        read.status is More <==> line.verdict is More,
        read.status is Done <==> line.verdict is Done,
        read.status matches LineStatus::Failed(error) ==> line.verdict == Verdict::Failed(
            error.0@,
        ),
        !(read.status is Failed) ==> state == line.state,
{
}

/// What is streamed goes to the frontend chunk by chunk, in order, unless it
/// is held back.
pub proof fn law_streams_show_their_chunks(
    before: EventStream,
    stream: EventStream,
    chunks: Seq<Seq<char>>,
    i: int,
)
    requires
        streamed_into(before, stream, false, chunks),
        0 <= i < chunks.len(),
    ensures
        stream.events().len() == before.events().len() + chunks.len(),
        stream.events()[before.events().len() + i] == crate::event::EventView::TokenDelta(
            chunks[i],
        ),
        stream.events().take(before.events().len() as int) == before.events(),
        stream.streamed() == before.streamed() + joined(chunks),
{
    assert(stream.events().take(before.events().len() as int) =~= before.events());
}

/// A stream settles at the first line that cannot be had, that ends it or that
/// fails it, and at no other.
pub proof fn law_streams_settle_at_the_last_line(
    state: StreamView,
    line: Seq<char>,
    error: Seq<char>,
    rest: Seq<LineResult>,
)
    ensures
        !settles(state, seq![]),
        settles(state, seq![Err(error)] + rest),
        after_line(state, line).verdict is More ==> settles(state, seq![Ok(line)] + rest)
            == settles(after_line(state, line).state, rest),
        !(after_line(state, line).verdict is More) ==> settles(state, seq![Ok(line)] + rest),
{
    let broken = seq![Err::<Seq<char>, Seq<char>>(error)] + rest;
    assert(broken[0] == Err::<Seq<char>, Seq<char>>(error));
    let whole = seq![Ok::<Seq<char>, Seq<char>>(line)] + rest;
    assert(whole[0] == Ok::<Seq<char>, Seq<char>>(line));
    assert(whole.skip(1) =~= rest);
}

/// A stream begins with nothing: no text, no calls, no data.
pub proof fn law_streams_begin_empty()
    ensures
        start().text.len() == 0,
        start().calls.len() == 0,
        start().finish_reason is None,
        !start().saw_data,
        start().fallback.len() == 0,
{
}

/// A response that is no stream is told in one chunk, its text, where it has
/// any; the failures tell what was wrong.
pub proof fn law_other_responses_are_told_whole(state: StreamView)
    requires
        !state.saw_data,
    ensures
        finished(state).1 matches Ok(turn) ==> finished(state).0 == if turn.text.len() > 0 {
            seq![turn.text]
        } else {
            seq![]
        },
        finished(state).1 is Err ==> finished(state).0.len() == 0,
        parsed(trimmed(state.fallback)) is Err ==> finished(state).1 == Err::<TurnView, Seq<char>>(
            "response contained no SSE data and is not a chat completion — the endpoint may not be OpenAI-compatible"@,
        ),
{
}

/// More calls than may be held are refused with their number, a response that
/// was cut for its length with what to do, and one without choices as such.
pub proof fn law_stream_failures_tell_why(
    calls: Seq<PartialView>,
    fragment: JsonView,
    state: StreamView,
    value: JsonView,
)
    ensures
        merged(calls, fragment) is Err <==> {
            &&& calls.len() >= 32
            &&& target_slot(calls, fragment) == calls.len()
            &&& at_key(fragment, "id"@) is Text || at_key(at_key(fragment, "function"@), "name"@)
                is Text || at_key(at_key(fragment, "function"@), "arguments"@) is Text
        },
        merged(calls, fragment) matches Err(error) ==> error == "server streamed more than "@
            + decimal(32) + " tool calls in one turn"@,
        state.saw_data && state.finish_reason == Some("length"@) ==> finished(state).1 == Err::<
            TurnView,
            Seq<char>,
        >(
            "model response was truncated (finish_reason=length); raise the server's output token limit"@,
        ),
        member(value, "error"@) is None && at_key(
            at_index(at_key(value, "choices"@), 0),
            "message"@,
        ) is Null ==> plain_reply(value) == Err::<TurnView, Seq<char>>(
            "response contained no choices"@,
        ),
{
}

/// Lines are read to the end: until there are no more, until one settles the
/// stream, or until no more can be counted.
pub proof fn law_streams_are_read_to_the_end(lines: Seq<LineResult>)
    ensures
        is_read(lines, true),
        settles(start(), lines) ==> is_read(lines, false),
        is_read(lines, false) && lines.len() < u64::MAX ==> settles(start(), lines),
{
}

}
