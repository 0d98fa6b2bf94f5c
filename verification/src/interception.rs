//! The forbidden-call policy: a total check of a JSON value for tool or
//! function calls whose name is on the deny list.

use vstd::prelude::*;
use vstd::string::*;
use crate::json::Json;
use crate::text::{contains_text, listed};

verus! {

/// The deny list.
#[derive(Debug, Clone)]
pub struct InterceptionConfig {
    pub forbidden_tools: Vec<String>,
}

/// The name that a tool call carries: its `function.name`, when that is a
/// string.
pub open spec fn call_name(call: Json) -> Option<Seq<char>> {
    match call.member("function"@) {
        Some(function) => match function.member("name"@) {
            Some(name) => name.text(),
            None => None,
        },
        None => None,
    }
}

/// The name of the first call, at or after `from`, that is on the deny list.
pub open spec fn first_forbidden(names: Seq<String>, calls: Seq<Json>, from: int) -> Option<
    Seq<char>,
>
    decreases calls.len() - from,
{
    if from < 0 || from >= calls.len() {
        None
    } else {
        match call_name(calls[from]) {
            Some(name) if listed(names, name) => Some(name),
            _ => first_forbidden(names, calls, from + 1),
        }
    }
}

/// The forbidden tool that `body.tool_calls` names first, if any.
pub open spec fn forbidden_tool(names: Seq<String>, body: Json) -> Option<Seq<char>> {
    match body.member("tool_calls"@) {
        Some(calls) => match calls.items() {
            Some(elements) => first_forbidden(names, elements, 0),
            None => None,
        },
        None => None,
    }
}

/// The forbidden function that `body.function_call.name` names, if any.
pub open spec fn forbidden_function(names: Seq<String>, body: Json) -> Option<Seq<char>> {
    match body.member("function_call"@) {
        Some(call) => match call.member("name"@) {
            Some(name) => match name.text() {
                Some(n) if listed(names, n) => Some(n),
                _ => None,
            },
            None => None,
        },
        None => None,
    }
}

/// The message that reports a blocked tool call.
pub open spec fn tool_message(name: Seq<char>) -> Seq<char> {
    "Tool '"@ + name + "' is blocked by Orchix security policy"@
}

/// The message that reports a blocked legacy function call.
pub open spec fn function_message(name: Seq<char>) -> Seq<char> {
    "Function '"@ + name + "' is blocked by Orchix security policy"@
}

/// The violation that `body` commits against the deny list `names`: a
/// forbidden tool call comes before a forbidden legacy function call.
pub open spec fn violation(names: Seq<String>, body: Json) -> Option<Seq<char>> {
    match forbidden_tool(names, body) {
        Some(name) => Some(tool_message(name)),
        None => match forbidden_function(names, body) {
            Some(name) => Some(function_message(name)),
            None => None,
        },
    }
}

/// The policy engine.
#[derive(Debug, Clone)]
pub struct Interceptor {
    pub config: InterceptionConfig,
}

impl Interceptor {
    /// The deny list as a sequence.
    pub open spec fn names(&self) -> Seq<String> {
        self.config.forbidden_tools@
    }

    /// A policy engine for the deny list of `config`.
    pub fn new(config: InterceptionConfig) -> (r: Self)
        ensures
            r.config == config,
    {
        Interceptor { config }
    }

    /// Whether `name` is on the deny list.
    pub fn is_forbidden(&self, name: &str) -> (r: bool)
        ensures
            r == listed(self.names(), name@),
    {
        contains_text(&self.config.forbidden_tools, name)
    }

    /// Checks `body` against the deny list. Fails with the message of the
    /// first forbidden tool call in `tool_calls`, else with that of a
    /// forbidden `function_call`; a body of any other shape passes.
    pub fn validate_tools(&self, body: &Json) -> (r: Result<(), String>)
        ensures
            match r {
                Ok(_) => violation(self.names(), *body).is_none(),
                Err(message) => violation(self.names(), *body) == Some(message@),
            },
    {
        if let Some(calls) = body.get("tool_calls") {
            if let Some(elements) = calls.as_array() {
                let mut i: usize = 0;
                while i < elements.len()
                    invariant
                        i <= elements.len(),
                        forbidden_tool(self.names(), *body) == first_forbidden(
                            self.names(),
                            elements@,
                            0,
                        ),
                        first_forbidden(self.names(), elements@, 0) == first_forbidden(
                            self.names(),
                            elements@,
                            i as int,
                        ),
                    decreases elements.len() - i,
                {
                    if let Some(function) = elements[i].get("function") {
                        if let Some(field) = function.get("name") {
                            if let Some(name) = field.as_str() {
                                if self.is_forbidden(name) {
                                    return Err(blocked("Tool '", name));
                                }
                            }
                        }
                    }
                    i += 1;
                }
            }
        }
        if let Some(call) = body.get("function_call") {
            if let Some(field) = call.get("name") {
                if let Some(name) = field.as_str() {
                    if self.is_forbidden(name) {
                        return Err(blocked("Function '", name));
                    }
                }
            }
        }
        Ok(())
    }
}

/// Builds `lead`, `name` and the fixed ending of a violation message.
fn blocked(lead: &str, name: &str) -> (r: String)
    ensures
        r@ == lead@ + name@ + "' is blocked by Orchix security policy"@,
{
    let mut message = String::from_str(lead);
    message.append(name);
    message.append("' is blocked by Orchix security policy");
    message
}

proof fn first_forbidden_is_listed(names: Seq<String>, calls: Seq<Json>, from: int)
    requires
        0 <= from,
    ensures
        first_forbidden(names, calls, from) matches Some(name) ==> listed(names, name),
    decreases calls.len() - from,
{
    if from < calls.len() {
        first_forbidden_is_listed(names, calls, from + 1);
    }
}

/// Whether `message` reports `name`, a name on the deny list, as a blocked
/// tool or function.
pub open spec fn reports(names: Seq<String>, message: Seq<char>, name: Seq<char>) -> bool {
    listed(names, name) && (message == tool_message(name) || message == function_message(name))
}

/// Only a forbidden name is a violation: every violation reports a name on
/// the deny list, as a tool or as a function. A body that names none, or has
/// another shape, commits no violation.
pub proof fn violation_reports_a_listed_name(names: Seq<String>, body: Json)
    ensures
        match violation(names, body) {
            Some(message) => exists|name: Seq<char>| #[trigger] reports(names, message, name),
            None => true,
        },
{
    match violation(names, body) {
        Some(message) => {
            match forbidden_tool(names, body) {
                Some(name) => {
                    first_forbidden_is_listed(
                        names,
                        body.member("tool_calls"@).unwrap().items().unwrap(),
                        0,
                    );
                    assert(reports(names, message, name));
                },
                None => {
                    let name = forbidden_function(names, body).unwrap();
                    assert(reports(names, message, name));
                },
            }
        },
        None => {},
    }
}

/// An empty deny list blocks nothing.
pub proof fn empty_list_blocks_nothing(names: Seq<String>, body: Json)
    requires
        names.len() == 0,
    ensures
        violation(names, body).is_none(),
{
    violation_reports_a_listed_name(names, body);
}

} // verus!
