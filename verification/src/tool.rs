//! The contract between the harness and its tools: what a tool is, how it
//! fails, and the registry that holds the tools of a session.

use vstd::prelude::*;

use crate::text;

verus! {

/// Why a tool call failed.
#[derive(Debug, Clone, PartialEq, Eq)]
pub enum ToolError {
    /// The arguments could not be read.
    InvalidArgs(String),
    /// The tool ran and failed.
    Failed(String),
}

/// What a [`ToolError`] says.
pub ghost enum Fault {
    /// The arguments could not be read.
    InvalidArgs(Seq<char>),
    /// The tool ran and failed.
    Failed(Seq<char>),
}

impl View for ToolError {
    type V = Fault;

    open spec fn view(&self) -> Fault {
        match *self {
            ToolError::InvalidArgs(reason) => Fault::InvalidArgs(reason@),
            ToolError::Failed(reason) => Fault::Failed(reason@),
        }
    }
}

/// The line shown for a fault.
pub open spec fn fault_text(fault: Fault) -> Seq<char> {
    match fault {
        Fault::InvalidArgs(reason) => "invalid arguments: "@ + reason,
        Fault::Failed(reason) => "tool failed: "@ + reason,
    }
}

/// What a tool answered: its JSON result, or a fault.
pub type Answer = Result<Seq<char>, Fault>;

/// The answer that a value of `execute` stands for.
pub open spec fn answer_of(outcome: Result<String, ToolError>) -> Answer {
    match outcome {
        Ok(result_json) => Ok(result_json@),
        Err(error) => Err(error@),
    }
}

/// An answer with its fault written out.
pub open spec fn answer_text(answer: Answer) -> Result<Seq<char>, Seq<char>> {
    match answer {
        Ok(result_json) => Ok(result_json),
        Err(fault) => Err(fault_text(fault)),
    }
}

impl ToolError {
    /// The error as one line of text.
    pub fn to_string(&self) -> (line: String)
        ensures
            line@ == fault_text(self@),
    {
        match self {
            ToolError::InvalidArgs(reason) => "invalid arguments: ".to_owned().concat(
                reason.as_str(),
            ),
            ToolError::Failed(reason) => "tool failed: ".to_owned().concat(reason.as_str()),
        }
    }
}

/// A capability that the model, or a user, can call by name.
pub trait Tool: Send + Sync {
    /// The name that [`Tool::name`] gives.
    open spec fn tool_name(&self) -> Seq<char> {
        arbitrary()
    }

    /// The description that [`Tool::description`] gives.
    open spec fn tool_description(&self) -> Seq<char> {
        arbitrary()
    }

    /// The schema that [`Tool::parameters_schema`] gives.
    open spec fn tool_schema(&self) -> Seq<char> {
        arbitrary()
    }

    /// Whether the tool, called with `args_json`, may answer `answer`. Of a
    /// tool that says no more, anything may come.
    open spec fn may_answer(&self, args_json: Seq<char>, answer: Answer) -> bool {
        true
    }

    /// The name under which the tool is registered.
    fn name(&self) -> (name: &'static str)
        ensures
            name@ == self.tool_name(),
    ;

    /// What the tool does and when to call it, for the model.
    fn description(&self) -> (description: &'static str)
        ensures
            description@ == self.tool_description(),
    ;

    /// The JSON Schema of the arguments, as JSON text.
    fn parameters_schema(&self) -> (schema: &'static str)
        ensures
            schema@ == self.tool_schema(),
    ;

    /// Run the tool on JSON arguments.
    fn execute(&self, args_json: &str) -> (outcome: Result<String, ToolError>)
        ensures
            self.may_answer(args_json@, answer_of(outcome)),
    ;
}

/// A value under the name that it was given.
pub struct Named<T> {
    /// The value.
    pub tool: T,
    /// Its name.
    pub name: &'static str,
}

/// One entry of a registry: a tool under the name that it had at registration.
pub type Registered = Named<Box<dyn Tool>>;

/// `tool` under the name `name`.
fn named<T>(tool: T, name: &'static str) -> (entry: Named<T>)
    ensures
        entry.tool == tool,
        entry.name == name,
{
    Named { tool, name }
}

/// The tools of a session, each under a name of its own.
pub struct ToolRegistry {
    tools: Vec<Registered>,
}

/// What calling a name that no tool has is answered.
pub open spec fn unknown_tool_text(name: Seq<char>) -> Seq<char> {
    "unknown tool `"@ + name + "`"@
}

impl ToolRegistry {
    /// The tools, in the order of their registration.
    pub closed spec fn tools(&self) -> Seq<Registered> {
        self.tools@
    }

    /// Whether a tool is registered under `name`.
    pub open spec fn has(&self, name: Seq<char>) -> bool {
        exists|i: int| 0 <= i < self.tools().len() && (#[trigger] self.tools()[i]).name@ == name
    }

    /// Whether calling `name` with `args_json` may have `outcome`: what the
    /// tool of that name answers, or, where there is none, that it is unknown.
    pub open spec fn may_yield(
        &self,
        name: Seq<char>,
        args_json: Seq<char>,
        outcome: Result<Seq<char>, Seq<char>>,
    ) -> bool {
        if self.has(name) {
            exists|i: int, answer: Answer|
                #![trigger self.tools()[i].tool.may_answer(args_json, answer)]
                0 <= i < self.tools().len() && self.tools()[i].name@ == name
                    && self.tools()[i].tool.may_answer(args_json, answer) && outcome == answer_text(
                    answer,
                )
        } else {
            outcome == Err::<Seq<char>, Seq<char>>(unknown_tool_text(name))
        }
    }

    /// No two tools share a name.
    pub open spec fn wf(&self) -> bool {
        forall|i: int, j: int|
            0 <= i < j < self.tools().len() ==> (#[trigger] self.tools()[i]).name@ != (
            #[trigger] self.tools()[j]).name@
    }

    /// A registry without tools.
    pub fn new() -> (registry: Self)
        ensures
            registry.tools() == Seq::<Registered>::empty(),
            registry.wf(),
    {
        ToolRegistry { tools: Vec::new() }
    }

    /// Add a tool. A name that is already taken is refused, and the registry
    /// keeps what it had.
    pub fn register(&mut self, tool: Box<dyn Tool>) -> (added: Result<(), String>)
        ensures
            old(self).wf() ==> final(self).wf(),
            added is Ok <==> !old(self).has(tool.tool_name()),
            match added {
                Ok(()) => {
                    &&& final(self).tools().len() == old(self).tools().len() + 1
                    &&& final(self).tools().drop_last() == old(self).tools()
                    &&& final(self).tools().last().tool == tool
                    &&& final(self).tools().last().name@ == tool.tool_name()
                },
                Err(reason) => {
                    &&& final(self).tools() == old(self).tools()
                    &&& reason@ == "tool `"@ + tool.tool_name() + "` is already registered"@
                },
            },
    {
        let name = tool.name();
        if self.get(name).is_some() {
            let mut reason = "tool `".to_owned();
            reason.append(name);
            reason.append("` is already registered");
            return Err(reason);
        }
        let entry = named(tool, name);
        self.insert(entry);
        Ok(())
    }

    /// Add an entry whose name is not taken.
    fn insert(&mut self, entry: Registered)
        requires
            !old(self).has(entry.name@),
        ensures
            old(self).wf() ==> final(self).wf(),
            final(self).tools().len() == old(self).tools().len() + 1,
            final(self).tools().drop_last() == old(self).tools(),
            final(self).tools().last() == entry,
    {
        let ghost before = self.tools();
        self.tools.push(entry);
        assert(self.tools().drop_last() =~= before);
        proof {
            if old(self).wf() {
                assert forall|i: int, j: int| 0 <= i < j < self.tools().len() implies (
                #[trigger] self.tools()[i]).name@ != (#[trigger] self.tools()[j]).name@ by {
                    assert(self.tools()[i] == before[i]);
                    if j < before.len() {
                        assert(self.tools()[j] == before[j]);
                    }
                }
            }
        }
    }

    /// The tool registered under `name`.
    pub fn get(&self, name: &str) -> (tool: Option<&Box<dyn Tool>>)
        ensures
            match tool {
                Some(tool) => exists|i: int|
                    0 <= i < self.tools().len() && (#[trigger] self.tools()[i]).name@ == name@
                        && self.tools()[i].tool == *tool,
                None => !self.has(name@),
            },
    {
        let mut i: usize = 0;
        while i < self.tools.len()
            invariant
                i <= self.tools@.len(),
                forall|j: int| 0 <= j < i ==> (#[trigger] self.tools@[j]).name@ != name@,
            decreases self.tools@.len() - i,
        {
            if text::same(self.tools[i].name, name) {
                assert(self.tools()[i as int].name@ == name@);
                return Some(&self.tools[i].tool);
            }
            i += 1;
        }
        None
    }

    /// The tools, in the order of their registration.
    pub fn iter(&self) -> (tools: &[Registered])
        ensures
            tools@ == self.tools(),
    {
        self.tools.as_slice()
    }

    /// Whether there is no tool.
    pub fn is_empty(&self) -> (empty: bool)
        ensures
            empty == (self.tools().len() == 0),
    {
        self.tools.is_empty()
    }
}

/// A fault tells its kind and its reason; a result is told as it is.
pub proof fn law_faults_tell_their_kind(reason: Seq<char>, result_json: Seq<char>)
    ensures
        answer_text(Ok(result_json)) == Ok::<Seq<char>, Seq<char>>(result_json),
        answer_text(Err(Fault::InvalidArgs(reason))) == Err::<Seq<char>, Seq<char>>(
            "invalid arguments: "@ + reason,
        ),
        answer_text(Err(Fault::Failed(reason))) == Err::<Seq<char>, Seq<char>>(
            "tool failed: "@ + reason,
        ),
{
}

/// A call of a tool that is registered yields what the one tool of that name
/// answered, and a call of any other yields that there is none.
pub proof fn law_calls_reach_their_tool(
    registry: ToolRegistry,
    i: int,
    name: Seq<char>,
    args_json: Seq<char>,
    outcome: Result<Seq<char>, Seq<char>>,
)
    requires
        registry.wf(),
        registry.may_yield(name, args_json, outcome),
    ensures
        0 <= i < registry.tools().len() && registry.tools()[i].name@ == name ==> exists|
            answer: Answer,
        |
            #[trigger] registry.tools()[i].tool.may_answer(args_json, answer) && match answer {
                Ok(result_json) => outcome == Ok::<Seq<char>, Seq<char>>(result_json),
                Err(_) => outcome is Err,
            },
        (forall|j: int|
            0 <= j < registry.tools().len() ==> (#[trigger] registry.tools()[j]).name@ != name)
            ==> outcome == Err::<Seq<char>, Seq<char>>("unknown tool `"@ + name + "`"@),
{
    if 0 <= i < registry.tools().len() && registry.tools()[i].name@ == name {
        let (j, answer) = choose|j: int, answer: Answer|
            #![trigger registry.tools()[j].tool.may_answer(args_json, answer)]
            0 <= j < registry.tools().len() && registry.tools()[j].name@ == name
                && registry.tools()[j].tool.may_answer(args_json, answer) && outcome
                == answer_text(answer);
        assert(registry.tools()[j].name@ == registry.tools()[i].name@);
        assert(i == j);
        assert(registry.tools()[i].tool.may_answer(args_json, answer));
    }
}

/// A registry has a tool exactly where one is registered under the name.
pub proof fn law_registries_have_what_was_registered(registry: ToolRegistry, name: Seq<char>)
    ensures
        registry.has(name) <==> registry.tools().map_values(|entry: Registered| entry.name@).contains(
            name,
        ),
{
    let names = registry.tools().map_values(|entry: Registered| entry.name@);
    if registry.has(name) {
        let i = choose|i: int|
            0 <= i < registry.tools().len() && (#[trigger] registry.tools()[i]).name@ == name;
        assert(names[i] == name);
    }
    if names.contains(name) {
        let i = choose|i: int| 0 <= i < names.len() && names[i] == name;
        assert(registry.tools()[i].name@ == name);
    }
}

}
