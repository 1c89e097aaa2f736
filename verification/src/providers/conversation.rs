//! Conversations with a provider.
use vstd::prelude::*;

use crate::seqs;
use crate::text;

verus! {

/// How many rounds of tool calls one completion may take.
pub const MAX_TURNS: usize = 8;

/// Who says something.
#[derive(Clone, Copy, Debug, PartialEq, Eq, Structural)]
pub enum Role {
    Assistant,
    System,
    User,
}

/// Something said.
#[derive(Debug)]
pub struct Message {
    pub content: String,
    pub role: Role,
}

/// `Message`, with its text as a sequence of characters.
pub struct MessageView {
    pub content: Seq<char>,
    pub role: Role,
}

impl View for Message {
    type V = MessageView;

    open spec fn view(&self) -> MessageView {
        MessageView { content: self.content@, role: self.role }
    }
}

impl Clone for Message {
    fn clone(&self) -> (r: Self)
        ensures
            r == *self,
    {
        Message { content: self.content.clone(), role: self.role }
    }
}

/// The tokens that a completion took.
#[derive(Clone, Copy, Debug, PartialEq, Eq, Structural)]
pub struct Usage {
    pub cache_creation_input_tokens: u64,
    pub cached_input_tokens: u64,
    pub input_tokens: u64,
    pub output_tokens: u64,
    pub total_tokens: u64,
}

impl Default for Usage {
    fn default() -> (r: Self)
        ensures
            r == (Usage {
                cache_creation_input_tokens: 0,
                cached_input_tokens: 0,
                input_tokens: 0,
                output_tokens: 0,
                total_tokens: 0,
            }),
    {
        Usage {
            cache_creation_input_tokens: 0,
            cached_input_tokens: 0,
            input_tokens: 0,
            output_tokens: 0,
            total_tokens: 0,
        }
    }
}

/// A provider's reply.
#[derive(Debug)]
pub struct Completion {
    pub text: String,
    pub usage: Usage,
}

/// Who answers a tool call: an MCP server, or another agent.
#[derive(Clone, Copy, Debug, PartialEq, Eq, Structural)]
pub enum ToolCallKind {
    Mcp,
    Subagent,
}

/// One event of a reply that comes in pieces. A call and its result have the same
/// `call_id`.
#[derive(Debug)]
pub enum StreamEvent {
    Delta(String),
    Done { usage: Usage },
    ToolCall { args: String, call_id: String, kind: ToolCallKind, tool_name: String },
    ToolResult { call_id: String, error: Option<String>, result: Option<String> },
}

/// `StreamEvent`, with texts as sequences of characters.
pub enum StreamEventView {
    Delta(Seq<char>),
    Done { usage: Usage },
    ToolCall { args: Seq<char>, call_id: Seq<char>, kind: ToolCallKind, tool_name: Seq<char> },
    ToolResult { call_id: Seq<char>, error: Option<Seq<char>>, result: Option<Seq<char>> },
}

impl View for StreamEvent {
    type V = StreamEventView;

    open spec fn view(&self) -> StreamEventView {
        match self {
            StreamEvent::Delta(s) => StreamEventView::Delta(s@),
            StreamEvent::Done { usage } => StreamEventView::Done { usage: *usage },
            StreamEvent::ToolCall { args, call_id, kind, tool_name } => StreamEventView::ToolCall {
                args: args@,
                call_id: call_id@,
                kind: *kind,
                tool_name: tool_name@,
            },
            StreamEvent::ToolResult { call_id, error, result } => StreamEventView::ToolResult {
                call_id: call_id@,
                error: text::opt_text(*error),
                result: text::opt_text(*result),
            },
        }
    }
}

/// Why a provider gave no reply.
#[derive(Debug)]
pub enum CallError {
    EmptyConversation,
    Provider(String),
    Streaming(String),
}

impl CallError {
    /// What the error says.
    pub open spec fn message(&self) -> Seq<char> {
        match self {
            CallError::EmptyConversation => "conversation has no user or assistant messages"@,
            CallError::Provider(e) => "provider request failed: "@ + e@,
            CallError::Streaming(e) => "provider streaming failed: "@ + e@,
        }
    }

    /// What the error says.
    pub fn to_text(&self) -> (r: String)
        ensures
            r@ == self.message(),
    {
        match self {
            CallError::EmptyConversation => String::from_str(
                "conversation has no user or assistant messages",
            ),
            CallError::Provider(e) => {
                let mut out = String::from_str("provider request failed: ");
                out.append(e.as_str());
                out
            },
            CallError::Streaming(e) => {
                let mut out = String::from_str("provider streaming failed: ");
                out.append(e.as_str());
                out
            },
        }
    }
}

/// A conversation as a provider takes it: instructions, what was said, and what is to be
/// answered.
#[derive(Debug)]
pub struct Conversation {
    pub history: Vec<Message>,
    pub preamble: String,
    pub prompt: Message,
}

/// `Conversation`, with texts as sequences of characters.
pub struct ConversationView {
    pub history: Seq<MessageView>,
    pub preamble: Seq<char>,
    pub prompt: MessageView,
}

impl View for Conversation {
    type V = ConversationView;

    open spec fn view(&self) -> ConversationView {
        ConversationView {
            history: seqs::views(self.history@),
            preamble: self.preamble@,
            prompt: self.prompt@,
        }
    }
}

/// A message that is a turn of the conversation.
pub open spec fn turn_of(m: MessageView) -> Option<MessageView> {
    if m.role == Role::System {
        None
    } else {
        Some(m)
    }
}

/// A message that is an instruction and says something.
pub open spec fn instruction_of(m: MessageView) -> Option<Seq<char>> {
    if m.role == Role::System && m.content.len() > 0 {
        Some(m.content)
    } else {
        None
    }
}

/// What user and assistant said.
pub open spec fn turns(messages: Seq<MessageView>) -> Seq<MessageView> {
    seqs::somes(messages.map_values(|m: MessageView| turn_of(m)))
}

/// The agent's instructions, if it has any, and then those in the messages.
pub open spec fn instructions(messages: Seq<MessageView>, agent_preamble: Seq<char>) -> Seq<
    Seq<char>,
> {
    (if agent_preamble.len() > 0 {
        seq![agent_preamble]
    } else {
        Seq::empty()
    }) + seqs::somes(messages.map_values(|m: MessageView| instruction_of(m)))
}

/// A conversation as a provider takes it. The last turn is to be answered; without a turn
/// there is none.
pub open spec fn packed(messages: Seq<MessageView>, agent_preamble: Seq<char>) -> Option<
    ConversationView,
> {
    let all = turns(messages);
    if all.len() == 0 {
        None
    } else {
        Some(
            ConversationView {
                history: all.drop_last(),
                preamble: text::joined(instructions(messages, agent_preamble), "\n\n"@),
                prompt: all.last(),
            },
        )
    }
}

impl Conversation {
    /// A conversation as a provider takes it. Every system message goes into the
    /// instructions, behind the agent's own; the last other message is to be answered.
    pub fn from_messages(messages: Vec<Message>, agent_preamble: &str) -> (r: Result<
        Self,
        CallError,
    >)
        ensures
            match r {
                Ok(c) => packed(seqs::views(messages@), agent_preamble@) == Some(c@),
                Err(e) => e is EmptyConversation && packed(
                    seqs::views(messages@),
                    agent_preamble@,
                ) is None,
            },
    {
        let ghost all = seqs::views(messages@);
        let ghost turn = |m: MessageView| turn_of(m);
        let ghost instruction = |m: MessageView| instruction_of(m);
        let mut parts: Vec<String> = Vec::new();
        if text::chars_of(agent_preamble).len() > 0 {
            parts.push(String::from_str(agent_preamble));
        }
        let ghost head = text::texts(parts@);
        assert(head =~= if agent_preamble@.len() > 0 {
            seq![agent_preamble@]
        } else {
            Seq::empty()
        });
        let mut said: Vec<Message> = Vec::new();
        let mut i: usize = 0;
        assert(all.take(0) =~= Seq::empty());
        assert(seqs::views(said@) =~= seqs::somes(all.take(0).map_values(turn)));
        assert(text::texts(parts@) =~= head + seqs::somes(
            all.take(0).map_values(instruction),
        ));
        while i < messages.len()
            invariant
                i <= messages@.len(),
                all == seqs::views(messages@),
                turn == (|m: MessageView| turn_of(m)),
                instruction == (|m: MessageView| instruction_of(m)),
                seqs::views(said@) == seqs::somes(all.take(i as int).map_values(turn)),
                text::texts(parts@) == head + seqs::somes(
                    all.take(i as int).map_values(instruction),
                ),
            decreases messages@.len() - i,
        {
            let m: &Message = &messages[i];
            let ghost before = seqs::views(said@);
            let ghost parts_before = text::texts(parts@);
            proof {
                assert(all[i as int] == m@);
                seqs::lemma_somes_step(all, turn, i as int);
                seqs::lemma_somes_step(all, instruction, i as int);
            }
            if let Role::System = m.role {
                if text::chars_of(m.content.as_str()).len() > 0 {
                    let part = m.content.clone();
                    proof {
                        text::lemma_texts_push(parts@, part);
                    }
                    parts.push(part);
                    assert(text::texts(parts@) =~= head + seqs::somes(
                        all.take(i + 1).map_values(instruction),
                    ));
                }
            } else {
                let copy = m.clone();
                said.push(copy);
                assert(seqs::views(said@) =~= before.push(copy@));
            }
            i = i + 1;
        }
        assert(all.take(i as int) =~= all);
        let ghost whole = seqs::views(said@);
        match said.pop() {
            Some(prompt) => {
                let c = Conversation {
                    history: said,
                    preamble: text::join(&parts, "\n\n"),
                    prompt,
                };
                assert(c@.history =~= whole.drop_last());
                Ok(c)
            },
            None => Err(CallError::EmptyConversation),
        }
    }

    /// The instructions to send, if there are any.
    pub fn preamble_to_send(&self) -> (r: Option<&str>)
        ensures
            match r {
                Some(s) => s@ == self.preamble@ && s@.len() > 0,
                None => self.preamble@.len() == 0,
            },
    {
        if text::chars_of(self.preamble.as_str()).len() > 0 {
            Some(self.preamble.as_str())
        } else {
            None
        }
    }
}

/// One part of a tool's result.
#[derive(Debug)]
pub enum ToolResultPart {
    Image,
    Text(String),
}

/// How a part of a tool's result reads.
pub open spec fn part_text(part: ToolResultPart) -> Seq<char> {
    match part {
        ToolResultPart::Image => "<image>"@,
        ToolResultPart::Text(s) => s@,
    }
}

/// A tool's result as one text: its parts on lines of their own, with a stand-in for
/// each image.
pub fn flatten_tool_result(parts: &Vec<ToolResultPart>) -> (r: String)
    ensures
        r@ == text::joined(parts@.map_values(|p: ToolResultPart| part_text(p)), "\n"@),
{
    let mut lines: Vec<String> = Vec::new();
    let mut i: usize = 0;
    while i < parts.len()
        invariant
            i <= parts@.len(),
            lines@.len() == i,
            forall|j: int| 0 <= j < i ==> (#[trigger] lines@[j])@ == part_text(parts@[j]),
        decreases parts@.len() - i,
    {
        let line = match &parts[i] {
            ToolResultPart::Image => String::from_str("<image>"),
            ToolResultPart::Text(s) => s.clone(),
        };
        lines.push(line);
        i = i + 1;
    }
    assert(text::texts(lines@) =~= parts@.map_values(|p: ToolResultPart| part_text(p)));
    text::join(&lines, "\n")
}

/// An item of a reply that comes in pieces, as the provider sends it.
#[derive(Debug)]
pub enum StreamItem {
    /// The stream broke off.
    Failed(String),
    FinalResponse(Usage),
    /// Anything that is passed over.
    Other,
    Text(String),
    ToolCall { arguments: String, call_id: String, tool_name: String },
    ToolResult { call_id: String, parts: Vec<ToolResultPart> },
}

/// Whether a tool is another agent.
pub open spec fn call_kind(tool_name: Seq<char>, subagents: Seq<Seq<char>>) -> ToolCallKind {
    if subagents.contains(tool_name) {
        ToolCallKind::Subagent
    } else {
        ToolCallKind::Mcp
    }
}

/// What becomes of an item of the stream: an event, the error that ends it, or nothing.
pub open spec fn event_of(item: StreamItem, subagents: Seq<Seq<char>>) -> Option<
    Result<StreamEventView, Seq<char>>,
> {
    match item {
        StreamItem::Failed(e) => Some(Err(e@)),
        StreamItem::FinalResponse(usage) => Some(Ok(StreamEventView::Done { usage })),
        StreamItem::Other => None,
        StreamItem::Text(s) => Some(Ok(StreamEventView::Delta(s@))),
        StreamItem::ToolCall { arguments, call_id, tool_name } => Some(
            Ok(
                StreamEventView::ToolCall {
                    args: arguments@,
                    call_id: call_id@,
                    kind: call_kind(tool_name@, subagents),
                    tool_name: tool_name@,
                },
            ),
        ),
        StreamItem::ToolResult { call_id, parts } => Some(
            Ok(
                StreamEventView::ToolResult {
                    call_id: call_id@,
                    error: None,
                    result: Some(
                        text::joined(parts@.map_values(|p: ToolResultPart| part_text(p)), "\n"@),
                    ),
                },
            ),
        ),
    }
}

/// What becomes of an item of the stream.
pub fn stream_event(item: StreamItem, subagent_names: &Vec<String>) -> (r: Option<
    Result<StreamEvent, CallError>,
>)
    ensures
        match (r, event_of(item, text::texts(subagent_names@))) {
            (Some(Ok(event)), Some(Ok(v))) => event@ == v,
            (Some(Err(CallError::Streaming(e))), Some(Err(v))) => e@ == v,
            (None, None) => true,
            _ => false,
        },
{
    match item {
        StreamItem::Failed(e) => Some(Err(CallError::Streaming(e))),
        StreamItem::FinalResponse(usage) => Some(Ok(StreamEvent::Done { usage })),
        StreamItem::Other => None,
        StreamItem::Text(s) => Some(Ok(StreamEvent::Delta(s))),
        StreamItem::ToolCall { arguments, call_id, tool_name } => {
            let kind = if text::list_contains(subagent_names, tool_name.as_str()) {
                ToolCallKind::Subagent
            } else {
                ToolCallKind::Mcp
            };
            Some(Ok(StreamEvent::ToolCall { args: arguments, call_id, kind, tool_name }))
        },
        StreamItem::ToolResult { call_id, parts } => {
            let result = flatten_tool_result(&parts);
            Some(Ok(StreamEvent::ToolResult { call_id, error: None, result: Some(result) }))
        },
    }
}

/// No turn is lost, none is moved, and no instruction becomes a turn: history and prompt
/// are the messages of user and assistant, in order.
pub proof fn law_conversation_keeps_turns(messages: Seq<MessageView>, agent_preamble: Seq<char>)
    requires
        packed(messages, agent_preamble) is Some,
    ensures
        packed(messages, agent_preamble)->0.history.push(
            packed(messages, agent_preamble)->0.prompt,
        ) == messages.filter(|m: MessageView| m.role != Role::System),
{
    let all = turns(messages);
    assert(all.drop_last().push(all.last()) =~= all);
    lemma_turns_filter(messages);
}

proof fn lemma_turns_filter(messages: Seq<MessageView>)
    ensures
        turns(messages) == messages.filter(|m: MessageView| m.role != Role::System),
    decreases messages.len(),
{
    reveal(Seq::filter);
    let turn = |m: MessageView| turn_of(m);
    let spoken = |m: MessageView| m.role != Role::System;
    if messages.len() > 0 {
        lemma_turns_filter(messages.drop_last());
        assert(messages.map_values(turn).drop_last() =~= messages.drop_last().map_values(turn));
        assert(messages.map_values(turn).last() == turn_of(messages.last()));
    } else {
        assert(messages.map_values(turn) =~= Seq::empty());
        assert(turns(messages) =~= messages.filter(spoken));
    }
}

/// The agent's own instructions lead: what the messages instruct comes behind them.
pub proof fn law_agent_preamble_leads(messages: Seq<MessageView>, agent_preamble: Seq<char>)
    requires
        agent_preamble.len() > 0,
        packed(messages, agent_preamble) is Some,
    ensures
        text::starts_with_text(packed(messages, agent_preamble)->0.preamble, agent_preamble),
{
    let parts = instructions(messages, agent_preamble);
    assert(parts[0] == agent_preamble);
    lemma_joined_starts(parts, "\n\n"@);
}

/// The message is an instruction: it comes from the system, and says something.
pub open spec fn instructs(m: MessageView) -> bool {
    m.role == Role::System && m.content.len() > 0
}

/// Every instruction stands in the preamble whole, at its place, and each behind those
/// before it, with an empty line between.
pub open spec fn instructions_stand(
    messages: Seq<MessageView>,
    preamble: Seq<char>,
    at: Seq<int>,
) -> bool {
    &&& at.len() == messages.len()
    &&& forall|i: int|
        0 <= i < messages.len() && instructs(messages[i]) ==> text::stands_at(
            preamble,
            (#[trigger] messages[i]).content,
            at[i],
        )
    &&& forall|i: int, j: int|
        0 <= i < j < messages.len() && instructs(messages[i]) && instructs(messages[j])
            ==> at[i] + (#[trigger] messages[i]).content.len() + 2 <= at[j] && #[trigger]
        messages[j].content.len() > 0
}

/// No instruction is lost, whatever the agent's own preamble is: each system message that
/// says something is in the preamble, and they stand in the order of the messages.
pub proof fn law_system_messages_are_told(messages: Seq<MessageView>, agent_preamble: Seq<char>)
    requires
        packed(messages, agent_preamble) is Some,
    ensures
        exists|at: Seq<int>|
            instructions_stand(messages, packed(messages, agent_preamble)->0.preamble, at),
{
    let instruction = |m: MessageView| instruction_of(m);
    let found = messages.map_values(instruction);
    let told = seqs::somes(found);
    let parts = instructions(messages, agent_preamble);
    let preamble = text::joined(parts, "\n\n"@);
    let own: int = parts.len() - told.len();
    let at = Seq::new(
        messages.len(),
        |i: int| text::part_at(parts, "\n\n"@, own + seqs::somes(found.take(i)).len()),
    );
    reveal_strlit("\n\n");
    assert("\n\n"@.len() == 2);
    assert forall|i: int| 0 <= i < messages.len() && instructs(messages[i]) implies text::stands_at(
        preamble,
        (#[trigger] messages[i]).content,
        at[i],
    ) by {
        assert(found[i] == Some(messages[i].content));
        seqs::lemma_somes_place(found, i);
        let k = own + seqs::somes(found.take(i)).len();
        assert(parts[k] == messages[i].content);
        text::law_joined_keeps_parts(parts, "\n\n"@, k);
    }
    assert forall|i: int, j: int|
        0 <= i < j < messages.len() && instructs(messages[i]) && instructs(
            messages[j],
        ) implies at[i] + (#[trigger] messages[i]).content.len() + 2 <= at[j] && #[trigger]
    messages[j].content.len() > 0 by {
        assert(found[i] == Some(messages[i].content));
        assert(found[j] == Some(messages[j].content));
        seqs::lemma_somes_place(found, i);
        seqs::lemma_somes_place(found, j);
        let a = own + seqs::somes(found.take(i)).len();
        let b = own + seqs::somes(found.take(j)).len();
        assert(found.take(j).take(i) =~= found.take(i));
        seqs::lemma_somes_place(found.take(j), i);
        assert(parts[a] == messages[i].content);
        lemma_later_part(parts, a, b);
    }
    assert(packed(messages, agent_preamble)->0.preamble == preamble);
    assert(instructions_stand(messages, packed(messages, agent_preamble)->0.preamble, at));
}

/// A later part of the instructions stands behind an earlier one.
proof fn lemma_later_part(parts: Seq<Seq<char>>, a: int, b: int)
    requires
        0 <= a < b < parts.len(),
    ensures
        text::part_at(parts, "\n\n"@, a) + parts[a].len() + 2 <= text::part_at(
            parts,
            "\n\n"@,
            b,
        ),
    decreases b - a,
{
    reveal_strlit("\n\n");
    text::law_joined_keeps_parts(parts, "\n\n"@, a);
    if a + 1 < b {
        lemma_later_part(parts, a + 1, b);
    }
}

/// An instruction is added behind what the preamble said, and changes nothing else: with
/// nothing there before, it is the preamble.
pub proof fn law_instruction_is_appended(
    messages: Seq<MessageView>,
    agent_preamble: Seq<char>,
    m: MessageView,
)
    requires
        m.role == Role::System,
    ensures
        packed(messages, agent_preamble) is Some <==> packed(
            messages.push(m),
            agent_preamble,
        ) is Some,
        packed(messages, agent_preamble) matches Some(before) ==> packed(
            messages.push(m),
            agent_preamble,
        ) matches Some(after) && {
            &&& after.history == before.history
            &&& after.prompt == before.prompt
            &&& after.preamble == if m.content.len() == 0 {
                before.preamble
            } else if before.preamble.len() == 0 {
                m.content
            } else {
                before.preamble + "\n\n"@ + m.content
            }
        },
{
    let turn = |x: MessageView| turn_of(x);
    let instruction = |x: MessageView| instruction_of(x);
    let more = messages.push(m);
    assert(more.take(messages.len() as int) =~= messages);
    assert(more.take(messages.len() as int + 1) =~= more);
    seqs::lemma_somes_step(more, turn, messages.len() as int);
    seqs::lemma_somes_step(more, instruction, messages.len() as int);
    let parts = instructions(messages, agent_preamble);
    let longer = instructions(more, agent_preamble);
    if m.content.len() == 0 {
        assert(longer =~= parts);
    } else {
        assert(longer =~= parts.push(m.content));
        assert(longer.drop_last() =~= parts);
        lemma_instructions_say(messages, agent_preamble);
        if parts.len() > 0 {
            text::law_joined_keeps_parts(parts, "\n\n"@, 0);
            assert(parts[0].len() > 0);
        }
    }
}

/// Every part of the instructions says something.
proof fn lemma_instructions_say(messages: Seq<MessageView>, agent_preamble: Seq<char>)
    ensures
        forall|k: int|
            0 <= k < instructions(messages, agent_preamble).len() ==> (#[trigger] instructions(
                messages,
                agent_preamble,
            )[k]).len() > 0,
    decreases messages.len(),
{
    let instruction = |m: MessageView| instruction_of(m);
    if messages.len() > 0 {
        lemma_instructions_say(messages.drop_last(), agent_preamble);
        let n = messages.len() - 1;
        assert(messages.take(n) =~= messages.drop_last());
        assert(messages.take(n + 1) =~= messages);
        seqs::lemma_somes_step(messages, instruction, n);
        let parts = instructions(messages, agent_preamble);
        let fewer = instructions(messages.drop_last(), agent_preamble);
        assert forall|k: int| 0 <= k < parts.len() implies (#[trigger] parts[k]).len() > 0 by {
            if k < fewer.len() {
                assert(parts[k] == fewer[k]);
                assert(fewer[k].len() > 0);
            }
        }
    } else {
        assert(messages.map_values(instruction) =~= Seq::empty());
    }
}

/// A turn is what is to be answered, the one before it becomes history, and the preamble
/// stays as it was.
pub proof fn law_turn_is_answered(
    messages: Seq<MessageView>,
    agent_preamble: Seq<char>,
    m: MessageView,
)
    requires
        m.role != Role::System,
    ensures
        packed(messages.push(m), agent_preamble) matches Some(after) && {
            &&& after.prompt == m
            &&& match packed(messages, agent_preamble) {
                Some(before) => after.preamble == before.preamble && after.history
                    == before.history.push(before.prompt),
                None => after.history == Seq::<MessageView>::empty(),
            }
        },
{
    let turn = |x: MessageView| turn_of(x);
    let instruction = |x: MessageView| instruction_of(x);
    let more = messages.push(m);
    assert(more.take(messages.len() as int) =~= messages);
    assert(more.take(messages.len() as int + 1) =~= more);
    seqs::lemma_somes_step(more, turn, messages.len() as int);
    seqs::lemma_somes_step(more, instruction, messages.len() as int);
    let all = turns(messages);
    assert(all.push(m).drop_last() =~= all);
    if all.len() > 0 {
        assert(all.drop_last().push(all.last()) =~= all);
    }
}

/// Where a turn stands among the instructions does not matter to the preamble: without
/// any message before it, the preamble is the agent's own, and a turn at the front changes
/// nothing but the history.
pub proof fn law_first_turn_leaves_preamble(
    m: MessageView,
    messages: Seq<MessageView>,
    agent_preamble: Seq<char>,
)
    requires
        m.role != Role::System,
    ensures
        packed(seq![m], agent_preamble) matches Some(alone) && alone.preamble == agent_preamble,
        packed(seq![m] + messages, agent_preamble) matches Some(with) && (packed(
            messages,
            agent_preamble,
        ) matches Some(without) ==> with.preamble == without.preamble && with.prompt
            == without.prompt && with.history == seq![m] + without.history),
{
    let turn = |x: MessageView| turn_of(x);
    let instruction = |x: MessageView| instruction_of(x);
    let one = seq![m];
    reveal_with_fuel(seqs::somes, 2);
    assert(one.map_values(turn) =~= seq![Some(m)]);
    assert(one.map_values(instruction) =~= seq![None::<Seq<char>>]);
    assert(seq![Some(m)].drop_last() =~= Seq::empty());
    assert(seq![None::<Seq<char>>].drop_last() =~= Seq::empty());
    assert(seqs::somes(one.map_values(turn)) =~= seq![m]);
    assert(seqs::somes(one.map_values(instruction)) =~= Seq::empty());
    let own = if agent_preamble.len() > 0 {
        seq![agent_preamble]
    } else {
        Seq::empty()
    };
    assert(instructions(one, agent_preamble) =~= own);
    assert(agent_preamble.len() == 0 ==> agent_preamble =~= Seq::empty());
    assert((one + messages).map_values(turn) =~= one.map_values(turn) + messages.map_values(turn));
    assert((one + messages).map_values(instruction) =~= one.map_values(instruction)
        + messages.map_values(instruction));
    seqs::lemma_somes_add(one.map_values(turn), messages.map_values(turn));
    seqs::lemma_somes_add(one.map_values(instruction), messages.map_values(instruction));
    assert(instructions(one + messages, agent_preamble) =~= instructions(messages, agent_preamble));
    let rest = turns(messages);
    assert(turns(one + messages) =~= seq![m] + rest);
    if rest.len() > 0 {
        assert((seq![m] + rest).drop_last() =~= seq![m] + rest.drop_last());
        assert((seq![m] + rest).last() == rest.last());
    }
}

/// With no preamble of the agent's and one instruction, the instruction is the preamble.
pub proof fn law_sole_instruction_is_the_preamble(
    before: Seq<MessageView>,
    m: MessageView,
    after: Seq<MessageView>,
)
    requires
        instructs(m),
        forall|i: int| 0 <= i < before.len() ==> !instructs(#[trigger] before[i]),
        forall|i: int| 0 <= i < after.len() ==> !instructs(#[trigger] after[i]),
        packed(before + seq![m] + after, Seq::empty()) is Some,
    ensures
        packed(before + seq![m] + after, Seq::empty())->0.preamble == m.content,
{
    let instruction = |x: MessageView| instruction_of(x);
    let all = before + seq![m] + after;
    lemma_nothing_instructs(before);
    lemma_nothing_instructs(after);
    assert(all.map_values(instruction) =~= before.map_values(instruction) + seq![Some(m.content)]
        + after.map_values(instruction));
    let one = seq![Some(m.content)];
    reveal_with_fuel(seqs::somes, 2);
    assert(one.drop_last() =~= Seq::empty());
    assert(seqs::somes(one) =~= seq![m.content]);
    seqs::lemma_somes_add(before.map_values(instruction), one);
    seqs::lemma_somes_add(before.map_values(instruction) + one, after.map_values(instruction));
    assert(instructions(all, Seq::empty()) =~= seq![m.content]);
}

proof fn lemma_nothing_instructs(messages: Seq<MessageView>)
    requires
        forall|i: int| 0 <= i < messages.len() ==> !instructs(#[trigger] messages[i]),
    ensures
        seqs::somes(messages.map_values(|m: MessageView| instruction_of(m))) == Seq::<
            Seq<char>,
        >::empty(),
    decreases messages.len(),
{
    let instruction = |m: MessageView| instruction_of(m);
    if messages.len() > 0 {
        lemma_nothing_instructs(messages.drop_last());
        assert(messages.map_values(instruction).drop_last() =~= messages.drop_last().map_values(
            instruction,
        ));
        assert(!instructs(messages[messages.len() - 1]));
    }
}

/// There is something to answer exactly when user or assistant said something.
pub proof fn law_conversation_needs_a_turn(messages: Seq<MessageView>, agent_preamble: Seq<char>)
    ensures
        packed(messages, agent_preamble) is Some <==> exists|i: int|
            0 <= i < messages.len() && (#[trigger] messages[i]).role != Role::System,
{
    let turn = |m: MessageView| turn_of(m);
    let found = messages.map_values(turn);
    if packed(messages, agent_preamble) is Some {
        let first = turns(messages)[0];
        assert(turns(messages).contains(first));
        seqs::lemma_somes_contains(found, first);
        let i = choose|i: int| 0 <= i < found.len() && #[trigger] found[i] == Some(first);
        assert(messages[i].role != Role::System);
    }
    if exists|i: int| 0 <= i < messages.len() && (#[trigger] messages[i]).role != Role::System {
        let i = choose|i: int|
            0 <= i < messages.len() && (#[trigger] messages[i]).role != Role::System;
        assert(found[i] == Some(messages[i]));
        seqs::lemma_somes_place(found, i);
    }
}

/// The last item of a stream reports the usage, and the event carries it count for count.
pub proof fn law_final_usage_is_reported(usage: Usage, subagents: Seq<Seq<char>>)
    ensures
        event_of(StreamItem::FinalResponse(usage), subagents) matches Some(
            Ok(StreamEventView::Done { usage: told }),
        ) && {
            &&& told.cache_creation_input_tokens == usage.cache_creation_input_tokens
            &&& told.cached_input_tokens == usage.cached_input_tokens
            &&& told.input_tokens == usage.input_tokens
            &&& told.output_tokens == usage.output_tokens
            &&& told.total_tokens == usage.total_tokens
        },
{
}

/// A piece of text comes through as it is, a stream that broke off says why, and what is
/// passed over makes no event.
pub proof fn law_stream_text_comes_through(text: String, subagents: Seq<Seq<char>>)
    ensures
        event_of(StreamItem::Text(text), subagents) matches Some(
            Ok(StreamEventView::Delta(piece)),
        ) && piece == text@,
        event_of(StreamItem::Failed(text), subagents) matches Some(Err(why)) && why == text@,
        event_of(StreamItem::Other, subagents) is None,
{
}

/// A call of a tool is announced with its arguments, identifier and name, as a call of
/// another agent exactly where the name is one of theirs.
pub proof fn law_tool_call_is_announced(
    arguments: String,
    call_id: String,
    tool_name: String,
    subagents: Seq<Seq<char>>,
)
    ensures
        event_of(StreamItem::ToolCall { arguments, call_id, tool_name }, subagents) matches Some(
            Ok(StreamEventView::ToolCall { args, call_id: id, kind, tool_name: name }),
        ) && {
            &&& args == arguments@
            &&& id == call_id@
            &&& name == tool_name@
            &&& kind == ToolCallKind::Subagent <==> exists|i: int|
                0 <= i < subagents.len() && #[trigger] subagents[i] == tool_name@
        },
{
}

/// A tool's result is told under the identifier of its call, without an error, and every
/// text of the result stands in it, each on lines of its own, in order.
pub proof fn law_tool_result_is_told(
    call_id: String,
    parts: Vec<ToolResultPart>,
    subagents: Seq<Seq<char>>,
    k: int,
)
    ensures
        event_of(StreamItem::ToolResult { call_id, parts }, subagents) matches Some(
            Ok(StreamEventView::ToolResult { call_id: id, error, result }),
        ) && {
            &&& id == call_id@
            &&& error is None
            &&& result matches Some(told) && {
                &&& parts@.len() == 0 ==> told.len() == 0
                &&& 0 <= k < parts@.len() ==> {
                    let before = text::joined(
                        parts@.take(k).map_values(|p: ToolResultPart| part_text(p)),
                        "\n"@,
                    );
                    text::stands_at(
                        told,
                        match parts@[k] {
                            ToolResultPart::Image => "<image>"@,
                            ToolResultPart::Text(s) => s@,
                        },
                        before.len() + if k > 0 {
                            1int
                        } else {
                            0
                        },
                    )
                }
            }
        },
{
    let read = |p: ToolResultPart| part_text(p);
    let lines = parts@.map_values(read);
    reveal_strlit("\n");
    assert("\n"@.len() == 1);
    if 0 <= k < parts@.len() {
        text::law_joined_keeps_parts(lines, "\n"@, k);
        assert(lines.take(k) =~= parts@.take(k).map_values(read));
    }
}

proof fn lemma_joined_starts(parts: Seq<Seq<char>>, sep: Seq<char>)
    requires
        parts.len() > 0,
    ensures
        text::starts_with_text(text::joined(parts, sep), parts[0]),
    decreases parts.len(),
{
    let all = text::joined(parts, sep);
    if parts.len() == 1 {
        assert(all.take(parts[0].len() as int) =~= parts[0]);
    } else {
        lemma_joined_starts(parts.drop_last(), sep);
        let front = text::joined(parts.drop_last(), sep);
        assert(all.take(parts[0].len() as int) =~= front.take(parts[0].len() as int));
    }
}

/// An error of a provider says what the provider did.
pub proof fn law_call_error_says_what_lies_under_it(e: CallError)
    ensures
        match e {
            CallError::EmptyConversation => e.message().len() > 0,
            CallError::Provider(why) | CallError::Streaming(why) => text::ends_with_text(
                e.message(),
                why@,
            ),
        },
        MAX_TURNS == 8,
{
    match e {
        CallError::EmptyConversation => {
            reveal_strlit("conversation has no user or assistant messages");
        },
        CallError::Provider(why) => {
            text::lemma_says_one("provider request failed: "@, why@, Seq::empty());
        },
        CallError::Streaming(why) => {
            text::lemma_says_one("provider streaming failed: "@, why@, Seq::empty());
        },
    }
}

} // verus!
