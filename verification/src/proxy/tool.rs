//! Tools in requests and replies.
use vstd::prelude::*;

verus! {

/// A tool that a request offers.
#[derive(Debug)]
pub struct Tool {
    pub function: ToolFunction,
    pub kind: ToolKind,
}

/// What a tool is. There is one kind only.
#[derive(Clone, Copy, Debug, PartialEq, Eq, Structural)]
pub enum ToolKind {
    Function,
}

impl ToolKind {
    /// The word for the kind.
    pub fn as_str(self) -> (r: &'static str)
        ensures
            r@ == "function"@,
    {
        match self {
            ToolKind::Function => "function",
        }
    }

    /// The kind that a word stands for.
    pub fn parse(s: &str) -> (r: Option<Self>)
        ensures
            r is Some <==> s@ == "function"@,
    {
        if crate::text::str_eq(s, "function") {
            Some(ToolKind::Function)
        } else {
            None
        }
    }
}

/// The name that a model gives to a tool call.
#[derive(Debug)]
pub struct ToolCallId(String);

impl View for ToolCallId {
    type V = Seq<char>;

    closed spec fn view(&self) -> Seq<char> {
        self.0@
    }
}

impl ToolCallId {
    /// The identifier with a text.
    pub fn new(raw: &str) -> (r: Self)
        ensures
            r@ == raw@,
    {
        ToolCallId(String::from_str(raw))
    }

    /// The identifier's text.
    pub fn as_str(&self) -> (r: &str)
        ensures
            r@ == self@,
    {
        self.0.as_str()
    }
}

/// What a tool does. `parameters` is the text of a JSON schema.
#[derive(Debug)]
pub struct ToolFunction {
    pub description: Option<String>,
    pub name: String,
    pub parameters: Option<String>,
}

/// A tool call in a reply.
#[derive(Debug)]
pub struct ToolCall {
    pub function: ToolCallFunction,
    pub id: ToolCallId,
    pub kind: ToolKind,
}

/// What is called, and with what.
#[derive(Debug)]
pub struct ToolCallFunction {
    pub arguments: String,
    pub name: String,
}

/// Which tool a request wants called.
#[derive(Debug)]
pub enum ToolChoice {
    Mode(ToolChoiceMode),
    Specific { function: ToolChoiceFunction, kind: ToolKind },
}

/// Whether a tool is to be called.
#[derive(Clone, Copy, Debug, PartialEq, Eq, Structural)]
pub enum ToolChoiceMode {
    Auto,
    Never,
    Required,
}

/// The word for a choice.
pub open spec fn mode_word(mode: ToolChoiceMode) -> Seq<char> {
    match mode {
        ToolChoiceMode::Auto => "auto"@,
        ToolChoiceMode::Never => "none"@,
        ToolChoiceMode::Required => "required"@,
    }
}

impl ToolChoiceMode {
    /// The word for the choice.
    pub fn as_str(self) -> (r: &'static str)
        ensures
            r@ == mode_word(self),
    {
        match self {
            ToolChoiceMode::Auto => "auto",
            ToolChoiceMode::Never => "none",
            ToolChoiceMode::Required => "required",
        }
    }
}

/// The tool that is to be called.
#[derive(Debug)]
pub struct ToolChoiceFunction {
    pub name: String,
}

/// Each choice has the word that clients send for it.
pub proof fn law_choices_have_their_words(mode: ToolChoiceMode)
    ensures
        mode is Auto <==> mode_word(mode) == "auto"@,
        mode is Never <==> mode_word(mode) == "none"@,
        mode is Required <==> mode_word(mode) == "required"@,
{
    reveal_strlit("auto");
    reveal_strlit("none");
    reveal_strlit("required");
    assert("auto"@[0] == 'a' && "none"@[0] == 'n' && "required"@[0] == 'r');
}

} // verus!
