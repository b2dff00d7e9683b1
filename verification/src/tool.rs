//! Who writes, which tools there are, and how a tool refuses.

use crate::content::{Author, AuthorId};
use crate::req::types::request;
use crate::req::types::request::Tool;
use vstd::prelude::*;
use vstd::string::StringExecFns;

verus! {

/// The identity under which a workspace is written to.
#[derive(Debug, PartialEq, Eq)]
pub enum WriterId {
    /// A human writer.
    Human,
    /// A model-backed agent.
    Agent {
        /// The model id the agent runs on.
        model: String,
        /// A label distinguishing this agent from other concurrent writers.
        label: String,
    },
}

impl View for WriterId {
    type V = Author;

    open spec fn view(&self) -> Author {
        match self {
            WriterId::Human => Author::Human,
            WriterId::Agent { model, label } => Author::Agent { model: model@, label: label@ },
        }
    }
}

impl Clone for WriterId {
    fn clone(&self) -> (copy: Self)
        ensures
            copy == *self,
    {
        match self {
            WriterId::Human => WriterId::Human,
            WriterId::Agent { model, label } => WriterId::Agent {
                model: model.clone(),
                label: label.clone(),
            },
        }
    }
}

impl WriterId {
    /// The provenance tag: `"human"`, or `"<model>/<label>"`.
    pub fn provenance_tag(&self) -> (tag: String)
        ensures
            tag@ == self@.tag(),
    {
        match self {
            WriterId::Human => "human".to_owned(),
            WriterId::Agent { model, label } => {
                let mut tag = model.clone();
                tag.append("/");
                tag.append(label.as_str());
                tag
            },
        }
    }

    /// The author that text written under this identity is attributed to.
    pub fn author(&self) -> (author: AuthorId)
        ensures
            author@ == self@,
    {
        match self {
            WriterId::Human => AuthorId::Human,
            WriterId::Agent { model, label } => AuthorId::Agent {
                model: model.clone(),
                label: label.clone(),
            },
        }
    }
}

/// Why a tool call or a workspace operation was refused.
#[derive(Debug, PartialEq, Eq)]
#[non_exhaustive]
pub enum ToolError {
    /// The arguments do not fit the tool.
    InvalidArgs(String),
    /// What the call names does not exist.
    NotFound(String),
    /// What the call would take or create is taken already.
    Lock(String),
    /// A path leads out of the workspace.
    SandboxViolation(String),
    /// Any other failure.
    Other(String),
}

/// A refused workspace operation: the error, and what it says.
#[derive(Debug, PartialEq, Eq)]
pub struct Refusal {
    /// The error.
    pub error: ToolError,
    /// What it says.
    pub message: String,
}

/// The tools that a session advertises to the model.
#[derive(Debug)]
pub struct ToolRegistry {
    /// The definitions, in the order in which they were registered.
    pub tools: Vec<Tool>,
}

impl ToolRegistry {
    /// Creates an empty registry.
    pub fn new() -> (registry: Self)
        ensures
            registry.tools@ == Seq::<Tool>::empty(),
    {
        ToolRegistry { tools: Vec::new() }
    }

    /// Adds a tool's definition, returning `&mut self` for chaining.
    pub fn register(&mut self, tool: Tool) -> (this: &mut Self)
        ensures
            this.tools@ == old(self).tools@.push(tool),
            *final(self) == *final(this),
    {
        self.tools.push(tool);
        self
    }

    /// How many tools there are.
    pub fn len(&self) -> (n: usize)
        ensures
            n == self.tools@.len(),
    {
        self.tools.len()
    }

    /// Whether there is no tool.
    pub fn is_empty(&self) -> (yes: bool)
        ensures
            yes == (self.tools@.len() == 0),
    {
        self.tools.len() == 0
    }

    /// The definitions to advertise.
    pub fn definitions(&self) -> (tools: Vec<Tool>)
        ensures
            request::tools_view(tools@) == request::tools_view(self.tools@),
    {
        let tools = self.tools.clone();
        assert(request::tools_view(tools@) == request::tools_view(self.tools@));
        tools
    }
}

} // verus!
