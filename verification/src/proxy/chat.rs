//! Chat completions: what is asked and what is answered.
use vstd::prelude::*;

use crate::floats::Single;
use crate::names::NameMap;
use crate::numbers;
use crate::proxy::language::{is_language_tag, LanguageTag, LanguageTagError};
use crate::proxy::response_format::ResponseFormat;
use crate::proxy::tool::{Tool, ToolCall, ToolCallId, ToolChoice};
use crate::seqs;
use crate::text;

verus! {

/// A request for a completion.
#[derive(Debug)]
pub struct ChatCompletionRequest {
    pub max_tokens: Option<u32>,
    pub messages: Vec<Message>,
    pub metadata: NameMap<String>,
    pub model: String,
    pub response_format: Option<ResponseFormat>,
    pub safety_identifier: Option<String>,
    pub stream: Option<bool>,
    pub stream_options: Option<StreamOptions>,
    pub temperature: Option<Single>,
    pub tool_choice: Option<ToolChoice>,
    pub tools: Option<Vec<Tool>>,
    /// The older name of `safety_identifier`, which goes before it.
    pub user: Option<String>,
}

/// How a reply is streamed.
#[derive(Clone, Copy, Debug, PartialEq, Eq, Structural)]
pub struct StreamOptions {
    pub include_usage: Option<bool>,
}

/// Who says something.
#[derive(Clone, Copy, Debug, PartialEq, Eq, Structural)]
pub enum Role {
    Assistant,
    System,
    Tool,
    User,
}

/// Something said.
#[derive(Debug)]
pub struct Message {
    pub content: Option<MessageContent>,
    pub name: Option<String>,
    pub role: Role,
    pub tool_call_id: Option<ToolCallId>,
    pub tool_calls: Option<Vec<ToolCall>>,
}

/// What is said: a text, or parts of several kinds.
#[derive(Debug)]
pub enum MessageContent {
    Parts(Vec<ContentPart>),
    Text(String),
}

/// A part of what is said. `extra` holds what is not understood, as JSON texts, so that
/// it can be passed on as it came.
#[derive(Debug)]
pub struct ContentPart {
    pub extra: NameMap<String>,
    pub kind: ContentPartKind,
    pub text: Option<String>,
}

/// The kind of a part. `Other` keeps the word of a kind that is not understood.
#[derive(Debug, PartialEq, Eq)]
pub enum ContentPartKind {
    File,
    ImageUrl,
    InputAudio,
    Other(String),
    Text,
}

/// The word for a kind.
pub open spec fn kind_word(kind: ContentPartKind) -> Seq<char> {
    match kind {
        ContentPartKind::File => "file"@,
        ContentPartKind::ImageUrl => "image_url"@,
        ContentPartKind::InputAudio => "input_audio"@,
        ContentPartKind::Other(raw) => raw@,
        ContentPartKind::Text => "text"@,
    }
}

/// The kind that a word stands for.
pub open spec fn kind_of(raw: String) -> ContentPartKind {
    if raw@ == "file"@ {
        ContentPartKind::File
    } else if raw@ == "image_url"@ {
        ContentPartKind::ImageUrl
    } else if raw@ == "input_audio"@ {
        ContentPartKind::InputAudio
    } else if raw@ == "text"@ {
        ContentPartKind::Text
    } else {
        ContentPartKind::Other(raw)
    }
}

impl ContentPartKind {
    /// The word for the kind.
    pub fn as_str(&self) -> (r: &str)
        ensures
            r@ == kind_word(*self),
    {
        match self {
            ContentPartKind::File => "file",
            ContentPartKind::ImageUrl => "image_url",
            ContentPartKind::InputAudio => "input_audio",
            ContentPartKind::Other(raw) => raw.as_str(),
            ContentPartKind::Text => "text",
        }
    }
}

impl From<String> for ContentPartKind {
    fn from(raw: String) -> (r: Self) {
        if text::str_eq(raw.as_str(), "file") {
            ContentPartKind::File
        } else if text::str_eq(raw.as_str(), "image_url") {
            ContentPartKind::ImageUrl
        } else if text::str_eq(raw.as_str(), "input_audio") {
            ContentPartKind::InputAudio
        } else if text::str_eq(raw.as_str(), "text") {
            ContentPartKind::Text
        } else {
            ContentPartKind::Other(raw)
        }
    }
}

impl vstd::std_specs::convert::FromSpecImpl<String> for ContentPartKind {
    open spec fn obeys_from_spec() -> bool {
        true
    }

    open spec fn from_spec(raw: String) -> Self {
        kind_of(raw)
    }
}

/// What a part says: its text, if it is a text part.
pub open spec fn part_text(part: ContentPart) -> Option<Seq<char>> {
    if part.kind is Text {
        text::opt_text(part.text)
    } else {
        None
    }
}

impl MessageContent {
    /// The text of what is said: the texts of its text parts on lines of their own. Parts
    /// of other kinds are passed over.
    pub open spec fn spoken(&self) -> Seq<char> {
        match self {
            MessageContent::Text(s) => s@,
            MessageContent::Parts(parts) => text::joined(
                seqs::somes(parts@.map_values(|p: ContentPart| part_text(p))),
                "\n"@,
            ),
        }
    }

    /// The text of what is said.
    pub fn text(&self) -> (r: String)
        ensures
            r@ == self.spoken(),
    {
        match self {
            MessageContent::Text(s) => s.clone(),
            MessageContent::Parts(parts) => {
                let ghost all = parts@;
                let ghost of = |p: ContentPart| part_text(p);
                let mut lines: Vec<String> = Vec::new();
                let mut i: usize = 0;
                assert(all.take(0) =~= Seq::empty());
                assert(text::texts(lines@) =~= seqs::somes(all.take(0).map_values(of)));
                while i < parts.len()
                    invariant
                        i <= parts@.len(),
                        all == parts@,
                        of == (|p: ContentPart| part_text(p)),
                        text::texts(lines@) == seqs::somes(all.take(i as int).map_values(of)),
                    decreases parts@.len() - i,
                {
                    proof {
                        seqs::lemma_somes_step(all, of, i as int);
                    }
                    if let (ContentPartKind::Text, Some(t)) = (&parts[i].kind, &parts[i].text) {
                        let line = t.clone();
                        proof {
                            text::lemma_texts_push(lines@, line);
                        }
                        lines.push(line);
                    }
                    i = i + 1;
                }
                assert(all.take(i as int) =~= all);
                text::join(&lines, "\n")
            },
        }
    }
}

impl Message {
    /// The text of the message, which may be empty.
    pub open spec fn spoken(&self) -> Seq<char> {
        match self.content {
            Some(c) => c.spoken(),
            None => Seq::empty(),
        }
    }

    /// The text of the message, which may be empty.
    pub fn content_or_empty(&self) -> (r: String)
        ensures
            r@ == self.spoken(),
    {
        match &self.content {
            Some(c) => c.text(),
            None => String::new(),
        }
    }
}

/// The last message of a user.
pub open spec fn last_of_user(messages: Seq<Message>) -> Option<Message>
    decreases messages.len(),
{
    if messages.len() == 0 {
        None
    } else if messages.last().role == Role::User {
        Some(messages.last())
    } else {
        last_of_user(messages.drop_last())
    }
}

/// An identifier without white space around it, if anything is left of it.
pub open spec fn identifier(given: Option<Seq<char>>) -> Option<Seq<char>> {
    match given {
        Some(s) => if text::trim_of(s).len() == 0 {
            None
        } else {
            Some(text::trim_of(s))
        },
        None => None,
    }
}

/// Who a request comes from: its identifier, else the one in the older field.
pub open spec fn caller(
    safety_identifier: Option<Seq<char>>,
    user: Option<Seq<char>>,
) -> Option<Seq<char>> {
    match identifier(safety_identifier) {
        Some(key) => Some(key),
        None => identifier(user),
    }
}

/// An identifier without white space around it, if anything is left of it.
fn trimmed_identifier(given: &Option<String>) -> (r: Option<String>)
    ensures
        text::opt_text(r) == identifier(text::opt_text(*given)),
{
    match given {
        Some(s) => {
            let trimmed = text::trim(s.as_str());
            if text::chars_of(trimmed.as_str()).len() == 0 {
                None
            } else {
                Some(trimmed)
            }
        },
        None => None,
    }
}

impl ChatCompletionRequest {
    /// The usage is to come with the last frame of a stream.
    pub fn include_usage(&self) -> (r: bool)
        ensures
            r == (self.stream_options is Some && self.stream_options->0.include_usage == Some(
                true,
            )),
    {
        match &self.stream_options {
            Some(o) => match o.include_usage {
                Some(b) => b,
                None => false,
            },
            None => false,
        }
    }

    /// The reply is to be streamed.
    pub fn is_streaming(&self) -> (r: bool)
        ensures
            r == (self.stream == Some(true)),
    {
        match self.stream {
            Some(b) => b,
            None => false,
        }
    }

    /// The language that the request asks for, if it asks for one; an error where what it
    /// gives is no language tag.
    pub fn language(&self) -> (r: Result<Option<LanguageTag>, LanguageTagError>)
        ensures
            if !self.metadata@.contains_key("language"@) {
                r matches Ok(None)
            } else if is_language_tag(self.metadata@["language"@]@) {
                r matches Ok(Some(tag)) && tag@ == self.metadata@["language"@]@
            } else {
                r matches Err(e) && e.0@ == self.metadata@["language"@]@
            },
    {
        match self.metadata.get("language") {
            None => Ok(None),
            Some(raw) => match LanguageTag::parse(raw.as_str()) {
                Ok(tag) => Ok(Some(tag)),
                Err(e) => Err(e),
            },
        }
    }

    /// The last message of the user. Only this one is new.
    pub fn last_user_message(&self) -> (r: Option<&Message>)
        ensures
            last_of_user(self.messages@) == (match r {
                Some(m) => Some(*m),
                None => None,
            }),
    {
        let mut i: usize = self.messages.len();
        assert(self.messages@.take(i as int) =~= self.messages@);
        while i > 0
            invariant
                i <= self.messages@.len(),
                last_of_user(self.messages@) == last_of_user(self.messages@.take(i as int)),
            decreases i,
        {
            let ghost front = self.messages@.take(i as int);
            i = i - 1;
            assert(front.drop_last() =~= self.messages@.take(i as int));
            if let Role::User = self.messages[i].role {
                return Some(&self.messages[i]);
            }
        }
        None
    }

    /// The system messages, in order.
    pub fn system_messages(&self) -> (r: Vec<&Message>)
        ensures
            r@.map_values(|m: &Message| *m) == self.messages@.filter(
                |m: Message| m.role == Role::System,
            ),
    {
        let ghost all = self.messages@;
        let ghost is_system = |m: Message| m.role == Role::System;
        let mut out: Vec<&Message> = Vec::new();
        let mut i: usize = 0;
        proof {
            reveal(Seq::filter);
            assert(all.take(0).filter(is_system) =~= Seq::empty());
            assert(out@.map_values(|m: &Message| *m) =~= Seq::empty());
        }
        while i < self.messages.len()
            invariant
                i <= self.messages@.len(),
                all == self.messages@,
                is_system == (|m: Message| m.role == Role::System),
                out@.map_values(|m: &Message| *m) == all.take(i as int).filter(is_system),
            decreases self.messages@.len() - i,
        {
            let ghost before = out@.map_values(|m: &Message| *m);
            proof {
                seqs::lemma_filter_step(all, is_system, i as int);
            }
            if let Role::System = self.messages[i].role {
                out.push(&self.messages[i]);
                assert(out@.map_values(|m: &Message| *m) =~= before.push(all[i as int]));
            }
            i = i + 1;
        }
        assert(all.take(i as int) =~= all);
        out
    }

    /// Who the request comes from. An identifier of white space alone counts as missing,
    /// so that callers without one are not taken for the same.
    pub fn user_key(&self) -> (r: Option<String>)
        ensures
            text::opt_text(r) == caller(
                text::opt_text(self.safety_identifier),
                text::opt_text(self.user),
            ),
    {
        match trimmed_identifier(&self.safety_identifier) {
            Some(key) => Some(key),
            None => trimmed_identifier(&self.user),
        }
    }

    /// The completion that answers the request at a moment.
    pub fn response_with(&self, text: String, usage: Usage, now: u64) -> (r:
        ChatCompletionResponse)
        ensures
            r.created == now,
            r.id@ == completion_name(now),
            r.model@ == self.model@,
            r.object@ == "chat.completion"@,
            r.usage == usage,
            r.choices@.len() == 1,
            r.choices@[0].finish_reason == FinishReason::Stop,
            r.choices@[0].index == 0,
            r.choices@[0].message.content == Some(MessageContent::Text(text)),
            r.choices@[0].message.name is None,
            r.choices@[0].message.role == Role::Assistant,
            r.choices@[0].message.tool_call_id is None,
            r.choices@[0].message.tool_calls is None,
    {
        let message = Message {
            content: Some(MessageContent::Text(text)),
            name: None,
            role: Role::Assistant,
            tool_call_id: None,
            tool_calls: None,
        };
        let mut choices: Vec<Choice> = Vec::new();
        choices.push(Choice { finish_reason: FinishReason::Stop, index: 0, message });
        ChatCompletionResponse {
            choices,
            created: now,
            id: CompletionId::from_created(now),
            model: self.model.clone(),
            object: String::from_str("chat.completion"),
            usage,
        }
    }
}

/// A completion's name.
#[derive(Debug)]
pub struct CompletionId(String);

impl View for CompletionId {
    type V = Seq<char>;

    closed spec fn view(&self) -> Seq<char> {
        self.0@
    }
}

/// The name of a completion made at a moment.
pub open spec fn completion_name(created: u64) -> Seq<char> {
    "chatcmpl-coulisse-"@ + text::decimal(created as nat)
}

impl CompletionId {
    /// The name of a completion made at a moment.
    pub fn from_created(created: u64) -> (r: Self)
        ensures
            r@ == completion_name(created),
    {
        let mut out = String::from_str("chatcmpl-coulisse-");
        out.append(text::format_u64(created).as_str());
        CompletionId(out)
    }

    /// The name's text.
    pub fn as_str(&self) -> (r: &str)
        ensures
            r@ == self@,
    {
        self.0.as_str()
    }
}

/// A completion.
#[derive(Debug)]
pub struct ChatCompletionResponse {
    pub choices: Vec<Choice>,
    pub created: u64,
    pub id: CompletionId,
    pub model: String,
    pub object: String,
    pub usage: Usage,
}

/// One answer of a completion.
#[derive(Debug)]
pub struct Choice {
    pub finish_reason: FinishReason,
    pub index: u32,
    pub message: Message,
}

/// Why an answer ended.
#[derive(Clone, Copy, Debug, PartialEq, Eq, Structural)]
pub enum FinishReason {
    ContentFilter,
    Length,
    Stop,
    ToolCalls,
}

/// The tokens that a completion took, as clients expect them.
#[derive(Clone, Copy, Debug, PartialEq, Eq, Structural)]
pub struct Usage {
    pub completion_tokens: u32,
    pub prompt_tokens: u32,
    pub total_tokens: u32,
}

/// The tokens that a completion took, as providers report them.
#[derive(Clone, Copy, Debug, PartialEq, Eq, Structural)]
pub struct TokenCounts {
    pub completion: u64,
    pub prompt: u64,
    pub total: u64,
}

impl Default for TokenCounts {
    fn default() -> (r: Self)
        ensures
            r == (TokenCounts { completion: 0, prompt: 0, total: 0 }),
    {
        TokenCounts { completion: 0, prompt: 0, total: 0 }
    }
}

/// A count as a client expects it: what is too large is the largest.
pub open spec fn clamped_count(n: u64) -> u32 {
    numbers::within(n as int, 0, u32::MAX as int) as u32
}

impl From<TokenCounts> for Usage {
    fn from(counts: TokenCounts) -> (r: Self) {
        Usage {
            completion_tokens: numbers::u64_to_u32(counts.completion),
            prompt_tokens: numbers::u64_to_u32(counts.prompt),
            total_tokens: numbers::u64_to_u32(counts.total),
        }
    }
}

impl vstd::std_specs::convert::FromSpecImpl<TokenCounts> for Usage {
    open spec fn obeys_from_spec() -> bool {
        true
    }

    open spec fn from_spec(counts: TokenCounts) -> Self {
        Usage {
            completion_tokens: clamped_count(counts.completion),
            prompt_tokens: clamped_count(counts.prompt),
            total_tokens: clamped_count(counts.total),
        }
    }
}

/// One frame of a streamed completion.
#[derive(Debug)]
pub struct ChatCompletionChunk {
    pub choices: Vec<ChunkChoice>,
    pub created: u64,
    pub id: CompletionId,
    pub model: String,
    pub object: String,
    pub usage: Option<Usage>,
}

/// What a frame says of one answer.
#[derive(Debug)]
pub struct ChunkChoice {
    pub delta: ChunkDelta,
    pub finish_reason: Option<FinishReason>,
    pub index: u32,
}

/// What a frame adds to an answer.
#[derive(Debug)]
pub struct ChunkDelta {
    pub content: Option<String>,
    pub role: Option<Role>,
}

impl Default for ChunkDelta {
    fn default() -> (r: Self)
        ensures
            r.content is None,
            r.role is None,
    {
        ChunkDelta { content: None, role: None }
    }
}

/// The word for a kind is read back as the kind, also where it is not understood.
pub proof fn law_part_kinds_round_trip(kind: ContentPartKind, raw: String)
    requires
        raw@ == kind_word(kind),
        kind matches ContentPartKind::Other(other) ==> other == raw && kind_of(raw) is Other,
    ensures
        kind_of(raw) == kind,
        kind_word(kind_of(raw)) == raw@,
{
    reveal_strlit("file");
    reveal_strlit("image_url");
    reveal_strlit("input_audio");
    reveal_strlit("text");
    assert("file"@.len() == 4 && "image_url"@.len() == 9 && "input_audio"@.len() == 11);
    assert("text"@.len() == 4 && "text"@[0] == 't' && "file"@[0] == 'f');
}

/// Whatever word a part comes with is the word that it goes on with.
pub proof fn law_part_words_are_kept(raw: String)
    ensures
        kind_word(kind_of(raw)) == raw@,
{
}

/// A caller's key has no white space around it and is not empty. The newer field goes
/// before the older, and a blank one counts as missing.
pub proof fn law_caller_is_trimmed(
    safety_identifier: Option<Seq<char>>,
    user: Option<Seq<char>>,
)
    ensures
        caller(safety_identifier, user) matches Some(key) ==> key.len() > 0 && text::trim_of(key)
            == key,
        caller(safety_identifier, None) is Some ==> caller(safety_identifier, user) == caller(
            safety_identifier,
            None,
        ),
        safety_identifier matches Some(s) && text::trim_of(s).len() == 0 ==> caller(
            safety_identifier,
            user,
        ) == caller(None, user),
{
    if safety_identifier is Some {
        text::lemma_trim_idempotent(safety_identifier->0);
    }
    if user is Some {
        text::lemma_trim_idempotent(user->0);
    }
}

/// The text of a message in parts holds the text of every text part, in order and each on
/// lines of its own; a message without a text part says nothing.
pub proof fn law_text_parts_are_spoken(parts: Vec<ContentPart>, i: int, j: int)
    ensures
        ({
            let spoken = MessageContent::Parts(parts).spoken();
            &&& 0 <= i < parts@.len() && parts@[i].kind is Text && parts@[i].text is Some
                ==> text::contains_text(spoken, parts@[i].text->0@)
            &&& 0 <= i < j < parts@.len() && parts@[i].kind is Text && parts@[i].text is Some
                && parts@[j].kind is Text && parts@[j].text is Some ==> exists|a: int, b: int|
                #![trigger text::stands_at(spoken, parts@[i].text->0@, a), text::stands_at(spoken, parts@[j].text->0@, b)]
                text::stands_at(spoken, parts@[i].text->0@, a) && text::stands_at(
                    spoken,
                    parts@[j].text->0@,
                    b,
                ) && a + parts@[i].text->0@.len() + 1 <= b
            &&& (forall|k: int|
                0 <= k < parts@.len() ==> !((#[trigger] parts@[k]).kind is Text)) ==> spoken.len()
                == 0
        }),
{
    let of = |p: ContentPart| part_text(p);
    let found = parts@.map_values(of);
    let said = seqs::somes(found);
    let spoken = MessageContent::Parts(parts).spoken();
    reveal_strlit("\n");
    assert("\n"@.len() == 1);
    if 0 <= i < parts@.len() && parts@[i].kind is Text && parts@[i].text is Some {
        assert(found[i] == Some(parts@[i].text->0@));
        seqs::lemma_somes_place(found, i);
        let k = seqs::somes(found.take(i)).len() as int;
        text::law_joined_keeps_parts(said, "\n"@, k);
        let a = text::part_at(said, "\n"@, k);
        assert(text::stands_at(spoken, parts@[i].text->0@, a));
        if i < j < parts@.len() && parts@[j].kind is Text && parts@[j].text is Some {
            assert(found[j] == Some(parts@[j].text->0@));
            seqs::lemma_somes_place(found, j);
            seqs::lemma_somes_place(found.take(j), i);
            assert(found.take(j).take(i) =~= found.take(i));
            let l = seqs::somes(found.take(j)).len() as int;
            text::law_joined_keeps_parts(said, "\n"@, l);
            let b = text::part_at(said, "\n"@, l);
            lemma_later_line(said, k, l);
            assert(text::stands_at(spoken, parts@[j].text->0@, b));
        }
    }
    if forall|k: int| 0 <= k < parts@.len() ==> !((#[trigger] parts@[k]).kind is Text) {
        if said.len() > 0 {
            assert(said.contains(said[0]));
            seqs::lemma_somes_contains(found, said[0]);
            let k = choose|k: int| 0 <= k < found.len() && #[trigger] found[k] == Some(said[0]);
            assert(!(parts@[k].kind is Text));
        }
    }
}

proof fn lemma_later_line(lines: Seq<Seq<char>>, a: int, b: int)
    requires
        0 <= a < b < lines.len(),
    ensures
        text::part_at(lines, "\n"@, a) + lines[a].len() + 1 <= text::part_at(lines, "\n"@, b),
    decreases b - a,
{
    reveal_strlit("\n");
    text::law_joined_keeps_parts(lines, "\n"@, a);
    if a + 1 < b {
        lemma_later_line(lines, a + 1, b);
    }
}

/// A message that is one text says it, and one without content says nothing.
pub proof fn law_plain_message_says_its_text(m: Message)
    ensures
        m.content is None ==> m.spoken().len() == 0,
        (m.content matches Some(MessageContent::Text(s)) ==> m.spoken() == s@),
        m.content matches Some(c) ==> m.spoken() == c.spoken(),
{
}

/// The message that is new is the last of a user's, and there is one wherever a user said
/// anything.
pub proof fn law_last_message_of_the_user_is_new(messages: Seq<Message>)
    ensures
        match last_of_user(messages) {
            Some(m) => exists|i: int|
                0 <= i < messages.len() && #[trigger] messages[i] == m && m.role == Role::User
                    && forall|j: int|
                    i < j < messages.len() ==> (#[trigger] messages[j]).role != Role::User,
            None => forall|j: int|
                0 <= j < messages.len() ==> (#[trigger] messages[j]).role != Role::User,
        },
    decreases messages.len(),
{
    if messages.len() > 0 && messages.last().role != Role::User {
        let rest = messages.drop_last();
        law_last_message_of_the_user_is_new(rest);
        assert forall|j: int| 0 <= j < rest.len() implies #[trigger] rest[j] == messages[j] by {}
        if last_of_user(messages) is Some {
            let m = last_of_user(messages)->0;
            let i = choose|i: int|
                0 <= i < rest.len() && #[trigger] rest[i] == m && m.role == Role::User && forall|
                    j: int,
                |
                    i < j < rest.len() ==> (#[trigger] rest[j]).role != Role::User;
            assert(messages[i] == m);
            assert forall|j: int| i < j < messages.len() implies (#[trigger] messages[j]).role
                != Role::User by {
                if j < rest.len() {
                    assert(rest[j] == messages[j]);
                }
            }
        } else {
            assert forall|j: int| 0 <= j < messages.len() implies (#[trigger] messages[j]).role
                != Role::User by {
                if j < rest.len() {
                    assert(rest[j] == messages[j]);
                }
            }
        }
    } else if messages.len() > 0 {
        assert(messages[messages.len() - 1] == messages.last());
    }
}

/// A caller is known wherever either field says anything: by the newer one, and else by the
/// older one.
pub proof fn law_caller_is_who_they_say(
    safety_identifier: Option<Seq<char>>,
    user: Option<Seq<char>>,
)
    ensures
        ({
            let newer = safety_identifier is Some && text::trim_of(safety_identifier->0).len() > 0;
            let older = user is Some && text::trim_of(user->0).len() > 0;
            &&& newer ==> caller(safety_identifier, user) == Some(
                text::trim_of(safety_identifier->0),
            )
            &&& !newer && older ==> caller(safety_identifier, user) == Some(
                text::trim_of(user->0),
            )
            &&& !newer && !older ==> caller(safety_identifier, user) is None
        }),
{
}

/// A count that a client can hold is kept, and one that is too large is the largest.
pub proof fn law_counts_are_kept(n: u64)
    ensures
        n <= u32::MAX ==> clamped_count(n) == n,
        n > u32::MAX ==> clamped_count(n) == u32::MAX,
{
}

/// Completions of different moments have different names.
pub proof fn law_completions_are_told_apart(a: u64, b: u64)
    requires
        completion_name(a) == completion_name(b),
    ensures
        a == b,
{
    let lead = "chatcmpl-coulisse-"@;
    assert(completion_name(a).skip(lead.len() as int) =~= text::decimal(a as nat));
    assert(completion_name(b).skip(lead.len() as int) =~= text::decimal(b as nat));
    text::lemma_decimal(a as nat);
    text::lemma_decimal(b as nat);
}

} // verus!
