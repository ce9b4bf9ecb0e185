//! What a model is asked, and what it answers.

use crate::action::CanonicalValue;
use crate::egress::DataClass;
use crate::json::JsonView;
use crate::lists::{opt_model, opt_text, views};
use crate::text::{concat, is_lower_name, lower_name};
use vstd::prelude::*;

verus! {

/// How much reasoning is asked for. It is never inferred from a prompt.
#[derive(Clone, Copy, Debug, PartialEq, Eq, PartialOrd, Ord, Hash, Structural)]
pub enum ReasoningProfile {
    Fast,
    Balanced,
    Deep,
    Maximum,
}

/// How the amount of reasoning is written in a request.
#[derive(Clone, Copy, Debug, PartialEq, Eq, PartialOrd, Ord, Hash, Structural)]
pub enum ReasoningWireFormat {
    /// Nothing is written.
    Unset,
    OpenAi,
    AnthropicAdaptive,
    OpenAiCompatible,
}

/// The failure of a model.
#[derive(Clone, Debug, PartialEq, Eq)]
pub struct ModelError {
    message: String,
}

impl View for ModelError {
    type V = Seq<char>;

    closed spec fn view(&self) -> Seq<char> {
        self.message@
    }
}

impl ModelError {
    /// A failure with the given message.
    pub fn new(message: String) -> (r: ModelError)
        ensures
            r@ == message@,
    {
        ModelError { message }
    }

    /// The message.
    pub fn message(&self) -> (r: &str)
        ensures
            r@ == self@,
    {
        self.message.as_str()
    }

    /// The whole text of the error.
    pub fn to_text(&self) -> (r: String)
        ensures
            r@ == "model failed: "@ + self@,
    {
        concat("model failed: ", self.message.as_str())
    }
}

/// How an answer is generated.
#[derive(Clone, Debug, PartialEq, Eq)]
pub struct ModelGenerationConfig {
    reasoning: ReasoningProfile,
    wire: ReasoningWireFormat,
    provider_effort: Option<String>,
    max_output_tokens: u32,
}

/// The model of a `ModelGenerationConfig`.
pub struct GenerationView {
    pub reasoning: ReasoningProfile,
    pub wire: ReasoningWireFormat,
    pub provider_effort: Option<Seq<char>>,
    pub max_output_tokens: u32,
}

impl View for ModelGenerationConfig {
    type V = GenerationView;

    closed spec fn view(&self) -> GenerationView {
        GenerationView {
            reasoning: self.reasoning,
            wire: self.wire,
            provider_effort: opt_text(self.provider_effort),
            max_output_tokens: self.max_output_tokens,
        }
    }
}

impl GenerationView {
    /// What is wrong with the configuration.
    pub open spec fn flaw(self) -> Option<Seq<char>> {
        if self.max_output_tokens == 0 {
            Some("max output tokens must be greater than zero"@)
        } else if self.wire == ReasoningWireFormat::Unset {
            if self.provider_effort is Some {
                Some("reasoning wire none cannot carry provider effort"@)
            } else {
                None
            }
        } else if self.provider_effort is Some && lower_name(self.provider_effort->0, 32) {
            None
        } else {
            Some("provider reasoning effort is invalid"@)
        }
    }
}

impl ModelGenerationConfig {
    /// Checks and takes the parts.
    pub fn new(
        reasoning: ReasoningProfile,
        wire: ReasoningWireFormat,
        provider_effort: Option<String>,
        max_output_tokens: u32,
    ) -> (r: Result<ModelGenerationConfig, ModelError>)
        ensures
            ({
                let v = GenerationView {
                    reasoning,
                    wire,
                    provider_effort: opt_text(provider_effort),
                    max_output_tokens,
                };
                match r {
                    Ok(c) => v.flaw() is None && c@ == v,
                    Err(e) => v.flaw() == Some(e@),
                }
            }),
    {
        if max_output_tokens == 0 {
            return Err(
                ModelError::new("max output tokens must be greater than zero".to_owned()),
            );
        }
        match (wire, &provider_effort) {
            (ReasoningWireFormat::Unset, None) => {},
            (ReasoningWireFormat::Unset, Some(_)) => {
                return Err(
                    ModelError::new("reasoning wire none cannot carry provider effort".to_owned()),
                );
            },
            (_, Some(value)) => {
                if !is_lower_name(value.as_str(), 32) {
                    return Err(
                        ModelError::new("provider reasoning effort is invalid".to_owned()),
                    );
                }
            },
            (_, None) => {
                return Err(ModelError::new("provider reasoning effort is invalid".to_owned()));
            },
        }
        Ok(ModelGenerationConfig { reasoning, wire, provider_effort, max_output_tokens })
    }

    /// How much reasoning is asked for.
    pub fn reasoning(&self) -> (r: ReasoningProfile)
        ensures
            r == self@.reasoning,
    {
        self.reasoning
    }

    /// How it is written.
    pub fn wire(&self) -> (r: ReasoningWireFormat)
        ensures
            r == self@.wire,
    {
        self.wire
    }

    /// The provider's own word for the effort.
    pub fn provider_effort(&self) -> (r: Option<&str>)
        ensures
            match r {
                Some(t) => self@.provider_effort == Some(t@),
                None => self@.provider_effort is None,
            },
    {
        match &self.provider_effort {
            Some(t) => Some(t.as_str()),
            None => None,
        }
    }

    /// The most tokens that may come out.
    pub fn max_output_tokens(&self) -> (r: u32)
        ensures
            r == self@.max_output_tokens,
    {
        self.max_output_tokens
    }
}

/// Who a message is from.
#[derive(Clone, Copy, Debug, PartialEq, Eq, Structural)]
pub enum ModelRole {
    User,
    Assistant,
    Tool,
}

/// A call of a tool.
#[derive(Debug, PartialEq, Eq)]
pub struct ModelToolCall {
    id: String,
    name: String,
    arguments: CanonicalValue,
}

/// The model of a `ModelToolCall`.
pub struct ToolCallView {
    pub id: Seq<char>,
    pub name: Seq<char>,
    pub arguments: JsonView,
}

impl View for ModelToolCall {
    type V = ToolCallView;

    closed spec fn view(&self) -> ToolCallView {
        ToolCallView {
            id: self.id@,
            name: self.name@,
            arguments: self.arguments@,
        }
    }
}

impl ModelToolCall {
    /// A call.
    pub fn new(id: String, name: String, arguments: CanonicalValue) -> (r: ModelToolCall)
        ensures
            r@ == (ToolCallView {
                id: id@,
                name: name@,
                arguments: arguments@,
            }),
    {
        ModelToolCall {
            id,
            name,
            arguments,
        }
    }

    /// The identity of the call.
    pub fn id(&self) -> (r: &str)
        ensures
            r@ == self@.id,
    {
        self.id.as_str()
    }

    /// The name of the tool.
    pub fn name(&self) -> (r: &str)
        ensures
            r@ == self@.name,
    {
        self.name.as_str()
    }

    /// The arguments.
    pub fn arguments(&self) -> (r: &CanonicalValue)
        ensures
            r@ == self@.arguments,
    {
        &self.arguments
    }
}

impl Clone for ModelToolCall {
    fn clone(&self) -> (r: ModelToolCall)
        ensures
            r@ == self@,
    {
        ModelToolCall {
            id: self.id.clone(),
            name: self.name.clone(),
            arguments: self.arguments.clone(),
        }
    }
}

/// A tool that a model may call.
#[derive(Clone, Debug, PartialEq, Eq)]
pub struct ModelTool {
    name: String,
    description: String,
    action_kind: String,
    input_schema: CanonicalValue,
}

/// The model of a `ModelTool`.
pub struct ToolView {
    pub name: Seq<char>,
    pub description: Seq<char>,
    pub action_kind: Seq<char>,
    pub input_schema: JsonView,
}

impl View for ModelTool {
    type V = ToolView;

    closed spec fn view(&self) -> ToolView {
        ToolView {
            name: self.name@,
            description: self.description@,
            action_kind: self.action_kind@,
            input_schema: self.input_schema@,
        }
    }
}

impl ModelTool {
    /// A tool.
    pub fn new(
        name: String,
        description: String,
        action_kind: String,
        input_schema: CanonicalValue,
    ) -> (r: ModelTool)
        ensures
            r@ == (ToolView {
                name: name@,
                description: description@,
                action_kind: action_kind@,
                input_schema: input_schema@,
            }),
    {
        ModelTool {
            name,
            description,
            action_kind,
            input_schema,
        }
    }

    /// The name.
    pub fn name(&self) -> (r: &str)
        ensures
            r@ == self@.name,
    {
        self.name.as_str()
    }

    /// What the tool does.
    pub fn description(&self) -> (r: &str)
        ensures
            r@ == self@.description,
    {
        self.description.as_str()
    }

    /// The kind of action that a call proposes.
    pub fn action_kind(&self) -> (r: &str)
        ensures
            r@ == self@.action_kind,
    {
        self.action_kind.as_str()
    }

    /// The schema of its arguments.
    pub fn input_schema(&self) -> (r: &CanonicalValue)
        ensures
            r@ == self@.input_schema,
    {
        &self.input_schema
    }
}

/// A message.
#[derive(Clone, Debug, PartialEq, Eq)]
pub struct ModelMessage {
    role: ModelRole,
    content: CanonicalValue,
    tool_call: Option<ModelToolCall>,
    tool_call_id: Option<String>,
}

/// The model of a `ModelMessage`.
pub struct MessageView {
    pub role: ModelRole,
    pub content: JsonView,
    pub tool_call: Option<ToolCallView>,
    pub tool_call_id: Option<Seq<char>>,
}

impl View for ModelMessage {
    type V = MessageView;

    closed spec fn view(&self) -> MessageView {
        MessageView {
            role: self.role,
            content: self.content@,
            tool_call: opt_model(self.tool_call),
            tool_call_id: opt_text(self.tool_call_id),
        }
    }
}

impl ModelMessage {
    /// A message without a call.
    pub fn new(role: ModelRole, content: CanonicalValue) -> (r: ModelMessage)
        ensures
            r@ == (MessageView {
                role,
                content: content@,
                tool_call: None,
                tool_call_id: None,
            }),
    {
        ModelMessage {
            role,
            content,
            tool_call: None,
            tool_call_id: None,
        }
    }

    /// The message in which the model calls a tool.
    pub fn assistant_tool_call(call: ModelToolCall) -> (r: ModelMessage)
        ensures
            r@ == (MessageView {
                role: ModelRole::Assistant,
                content: JsonView::Null,
                tool_call: Some(call@),
                tool_call_id: None,
            }),
    {
        ModelMessage {
            role: ModelRole::Assistant,
            content: CanonicalValue::Null,
            tool_call: Some(call),
            tool_call_id: None,
        }
    }

    /// The message that answers a call.
    pub fn tool_result(call_id: String, content: CanonicalValue) -> (r: ModelMessage)
        ensures
            r@ == (MessageView {
                role: ModelRole::Tool,
                content: content@,
                tool_call: None,
                tool_call_id: Some(call_id@),
            }),
    {
        ModelMessage { role: ModelRole::Tool, content, tool_call: None, tool_call_id: Some(call_id) }
    }

    /// Who it is from.
    pub fn role(&self) -> (r: ModelRole)
        ensures
            r == self@.role,
    {
        self.role
    }

    /// The content.
    pub fn content(&self) -> (r: &CanonicalValue)
        ensures
            r@ == self@.content,
    {
        &self.content
    }

    /// The call that the model makes.
    pub fn tool_call(&self) -> (r: Option<&ModelToolCall>)
        ensures
            match r {
                Some(v) => self@.tool_call == Some(v@),
                None => self@.tool_call is None,
            },
    {
        match &self.tool_call {
            Some(v) => Some(v),
            None => None,
        }
    }

    /// The call that is answered.
    pub fn tool_call_id(&self) -> (r: Option<&str>)
        ensures
            match r {
                Some(t) => self@.tool_call_id == Some(t@),
                None => self@.tool_call_id is None,
            },
    {
        match &self.tool_call_id {
            Some(t) => Some(t.as_str()),
            None => None,
        }
    }
}

/// What a model is asked.
#[derive(Clone, Debug, PartialEq, Eq)]
pub struct ModelInput {
    messages: Vec<ModelMessage>,
    data_class: DataClass,
    tools: Vec<ModelTool>,
    generation: Option<ModelGenerationConfig>,
}

/// The model of a `ModelInput`.
pub struct InputView {
    pub messages: Seq<MessageView>,
    pub data_class: DataClass,
    pub tools: Seq<ToolView>,
    pub generation: Option<GenerationView>,
}

impl View for ModelInput {
    type V = InputView;

    closed spec fn view(&self) -> InputView {
        InputView {
            messages: views(self.messages@),
            data_class: self.data_class,
            tools: views(self.tools@),
            generation: opt_model(self.generation),
        }
    }
}

impl ModelInput {
    /// The messages alone, as data of the workspace.
    pub fn new(messages: Vec<ModelMessage>) -> (r: ModelInput)
        ensures
            r@ == (InputView {
                messages: views(messages@),
                data_class: DataClass::Workspace,
                tools: Seq::empty(),
                generation: None,
            }),
    {
        let r = ModelInput {
            messages,
            data_class: DataClass::Workspace,
            tools: Vec::new(),
            generation: None,
        };
        proof {
            assert(r@.tools =~= Seq::<ToolView>::empty());
        }
        r
    }

    /// The same input with another value of `data_class`.
    pub fn with_data_class(self, data_class: DataClass) -> (r: ModelInput)
        ensures
            r@ == (InputView { data_class: data_class, ..self@ }),
    {
        let mut out = self;
        out.data_class = data_class;
        out
    }

    /// The same input with another value of `tools`.
    pub fn with_tools(self, tools: Vec<ModelTool>) -> (r: ModelInput)
        ensures
            r@ == (InputView { tools: views(tools@), ..self@ }),
    {
        let mut out = self;
        out.tools = tools;
        out
    }

    /// The same input with another value of `generation`.
    pub fn with_generation(self, generation: ModelGenerationConfig) -> (r: ModelInput)
        ensures
            r@ == (InputView { generation: Some(generation@), ..self@ }),
    {
        let mut out = self;
        out.generation = Some(generation);
        out
    }

    /// The messages behind `first` and the tools, as data of a class, without
    /// a configuration of how the answer is generated.
    pub fn preceded_by(self, first: ModelMessage, data_class: DataClass) -> (r: ModelInput)
        ensures
            r@ == (InputView {
                messages: Seq::<MessageView>::empty().push(first@) + self@.messages,
                data_class,
                tools: self@.tools,
                generation: None,
            }),
    {
        let ghost before = self@.messages;
        let ghost f = first@;
        let mut messages = self.messages;
        messages.insert(0, first);
        proof {
            assert(views(messages@) =~= Seq::<MessageView>::empty().push(f) + before);
        }
        ModelInput { messages, data_class, tools: self.tools, generation: None }
    }

    /// The messages.
    pub fn messages(&self) -> (r: &Vec<ModelMessage>)
        ensures
            views(r@) == self@.messages,
    {
        &self.messages
    }

    /// How sensitive the messages are.
    pub fn data_class(&self) -> (r: DataClass)
        ensures
            r == self@.data_class,
    {
        self.data_class
    }

    /// The tools that may be called.
    pub fn tools(&self) -> (r: &Vec<ModelTool>)
        ensures
            views(r@) == self@.tools,
    {
        &self.tools
    }

    /// How the answer is generated.
    pub fn generation(&self) -> (r: Option<&ModelGenerationConfig>)
        ensures
            match r {
                Some(v) => self@.generation == Some(v@),
                None => self@.generation is None,
            },
    {
        match &self.generation {
            Some(v) => Some(v),
            None => None,
        }
    }
}

/// An action that a model proposes.
#[derive(Clone, Debug, PartialEq, Eq)]
pub struct ActionProposal {
    kind: String,
    arguments: CanonicalValue,
    tool_call: Option<ModelToolCall>,
}

/// The model of a `ActionProposal`.
pub struct ProposalView {
    pub kind: Seq<char>,
    pub arguments: JsonView,
    pub tool_call: Option<ToolCallView>,
}

impl View for ActionProposal {
    type V = ProposalView;

    closed spec fn view(&self) -> ProposalView {
        ProposalView {
            kind: self.kind@,
            arguments: self.arguments@,
            tool_call: opt_model(self.tool_call),
        }
    }
}

impl ActionProposal {
    /// A proposal.
    pub fn new(kind: String, arguments: CanonicalValue) -> (r: ActionProposal)
        ensures
            r@ == (ProposalView {
                kind: kind@,
                arguments: arguments@,
                tool_call: None,
            }),
    {
        ActionProposal {
            kind,
            arguments,
            tool_call: None,
        }
    }

    /// The same proposal as that of a call.
    pub fn with_tool_call(self, tool_call: ModelToolCall) -> (r: ActionProposal)
        ensures
            r@ == (ProposalView { tool_call: Some(tool_call@), ..self@ }),
    {
        let mut out = self;
        out.tool_call = Some(tool_call);
        out
    }

    /// The arguments.
    pub fn into_arguments(self) -> (r: CanonicalValue)
        ensures
            r@ == self@.arguments,
    {
        self.arguments
    }

    /// The kind of the action.
    pub fn kind(&self) -> (r: &str)
        ensures
            r@ == self@.kind,
    {
        self.kind.as_str()
    }

    /// The call that proposed it.
    pub fn tool_call(&self) -> (r: Option<&ModelToolCall>)
        ensures
            match r {
                Some(v) => self@.tool_call == Some(v@),
                None => self@.tool_call is None,
            },
    {
        match &self.tool_call {
            Some(v) => Some(v),
            None => None,
        }
    }
}

/// What a model answers.
#[derive(Clone, Debug, PartialEq, Eq)]
pub enum ModelOutput {
    FinalText(String),
    Action(ActionProposal),
}

/// The model of a `ModelOutput`.
pub enum OutputView {
    FinalText(Seq<char>),
    Action(ProposalView),
}

impl View for ModelOutput {
    type V = OutputView;

    open spec fn view(&self) -> OutputView {
        match *self {
            ModelOutput::FinalText(t) => OutputView::FinalText(t@),
            ModelOutput::Action(a) => OutputView::Action(a@),
        }
    }
}

/// A configuration is in order exactly if it allows some output, and carries an
/// effort exactly where the wire has a place for one, as a plain lower-case name
/// of at most 32 bytes.
pub proof fn efforts_stand_where_the_wire_has_a_place(g: GenerationView)
    ensures
        g.flaw() is None <==> g.max_output_tokens > 0 && (g.wire == ReasoningWireFormat::Unset
            <==> g.provider_effort is None) && (g.provider_effort matches Some(e) ==> lower_name(
            e,
            32,
        )),
{
}

} // verus!
