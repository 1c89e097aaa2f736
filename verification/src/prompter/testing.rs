//! Scripted replies, for tests that need no provider.
use vstd::prelude::*;

use crate::prompter::backend::{agent_named, find_agent};
use crate::prompter::config::AgentConfig;
use crate::prompter::error::{PrompterError, PrompterErrorView};
use crate::providers::conversation::{
    Completion, Message, MessageView, Role, StreamEvent, StreamEventView, ToolCallKind, Usage,
};
use crate::seqs;
use crate::text;

verus! {

/// A scripted tool call.
#[derive(Debug)]
pub struct ScriptedToolCall {
    pub args: String,
    pub call_id: String,
    pub kind: ToolCallKind,
    pub result: Option<String>,
    pub tool_name: String,
}

impl Clone for ScriptedToolCall {
    fn clone(&self) -> (r: Self)
        ensures
            r == *self,
    {
        ScriptedToolCall {
            args: self.args.clone(),
            call_id: self.call_id.clone(),
            kind: self.kind,
            result: match &self.result {
                Some(s) => Some(s.clone()),
                None => None,
            },
            tool_name: self.tool_name.clone(),
        }
    }
}

/// A scripted reply.
#[derive(Debug)]
pub struct ScriptedReply {
    pub deltas: Vec<String>,
    pub tool_calls: Vec<ScriptedToolCall>,
    pub usage: Usage,
}

/// `ScriptedReply`, with texts as sequences of characters.
pub struct ScriptedReplyView {
    pub deltas: Seq<Seq<char>>,
    pub tool_calls: Seq<ScriptedToolCall>,
    pub usage: Usage,
}

impl View for ScriptedReply {
    type V = ScriptedReplyView;

    open spec fn view(&self) -> ScriptedReplyView {
        ScriptedReplyView {
            deltas: text::texts(self.deltas@),
            tool_calls: self.tool_calls@,
            usage: self.usage,
        }
    }
}

impl Clone for ScriptedReply {
    fn clone(&self) -> (r: Self)
        ensures
            r@ == self@,
    {
        let mut tool_calls: Vec<ScriptedToolCall> = Vec::new();
        let mut i: usize = 0;
        while i < self.tool_calls.len()
            invariant
                i <= self.tool_calls@.len(),
                tool_calls@ == self.tool_calls@.take(i as int),
            decreases self.tool_calls@.len() - i,
        {
            tool_calls.push(self.tool_calls[i].clone());
            assert(tool_calls@ =~= self.tool_calls@.take(i + 1));
            i = i + 1;
        }
        assert(tool_calls@ =~= self.tool_calls@);
        ScriptedReply { deltas: text::clone_list(&self.deltas), tool_calls, usage: self.usage }
    }
}

/// The usage of a reply that gives none.
pub open spec fn one_token() -> Usage {
    Usage {
        cache_creation_input_tokens: 0,
        cached_input_tokens: 0,
        input_tokens: 0,
        output_tokens: 1,
        total_tokens: 1,
    }
}

fn single_token() -> (r: Usage)
    ensures
        r == one_token(),
{
    Usage {
        cache_creation_input_tokens: 0,
        cached_input_tokens: 0,
        input_tokens: 0,
        output_tokens: 1,
        total_tokens: 1,
    }
}

/// The parts of a text, one behind the other.
pub open spec fn concatenated(parts: Seq<Seq<char>>) -> Seq<char>
    decreases parts.len(),
{
    if parts.len() == 0 {
        Seq::empty()
    } else {
        concatenated(parts.drop_last()) + parts.last()
    }
}

impl ScriptedReply {
    /// A reply in one piece.
    pub fn text(s: String) -> (r: Self)
        ensures
            r@ == (ScriptedReplyView {
                deltas: seq![s@],
                tool_calls: Seq::empty(),
                usage: one_token(),
            }),
    {
        let mut deltas: Vec<String> = Vec::new();
        deltas.push(s);
        assert(text::texts(deltas@) =~= seq![s@]);
        ScriptedReply { deltas, tool_calls: Vec::new(), usage: single_token() }
    }

    /// A reply in several pieces.
    pub fn deltas(deltas: Vec<String>) -> (r: Self)
        ensures
            r@ == (ScriptedReplyView {
                deltas: text::texts(deltas@),
                tool_calls: Seq::empty(),
                usage: one_token(),
            }),
    {
        ScriptedReply { deltas, tool_calls: Vec::new(), usage: single_token() }
    }

    /// The reply, with another usage.
    pub fn with_usage(self, usage: Usage) -> (r: Self)
        ensures
            r == (ScriptedReply { usage, ..self }),
    {
        let mut reply = self;
        reply.usage = usage;
        reply
    }

    /// The reply, with one more tool call, which is numbered on from those before it.
    pub fn with_tool_call(
        self,
        tool_name: String,
        args: String,
        kind: ToolCallKind,
        result: Option<String>,
    ) -> (r: Self)
        ensures
            r.deltas == self.deltas,
            r.usage == self.usage,
            r.tool_calls@.len() == self.tool_calls@.len() + 1,
            r.tool_calls@.drop_last() == self.tool_calls@,
            r.tool_calls@.last().args == args,
            r.tool_calls@.last().call_id@ == "scripted-"@ + text::decimal(
                self.tool_calls@.len() as nat,
            ),
            r.tool_calls@.last().kind == kind,
            r.tool_calls@.last().result == result,
            r.tool_calls@.last().tool_name == tool_name,
    {
        let mut reply = self;
        let mut call_id = String::from_str("scripted-");
        call_id.append(text::format_u64(reply.tool_calls.len() as u64).as_str());
        reply.tool_calls.push(ScriptedToolCall { args, call_id, kind, result, tool_name });
        assert(reply.tool_calls@.drop_last() =~= self.tool_calls@);
        reply
    }

    /// The text of the whole reply.
    pub fn full_text(&self) -> (r: String)
        ensures
            r@ == concatenated(text::texts(self.deltas@)),
    {
        let ghost all = text::texts(self.deltas@);
        let mut out = String::new();
        let mut i: usize = 0;
        assert(out@ =~= concatenated(all.take(0)));
        while i < self.deltas.len()
            invariant
                i <= self.deltas@.len(),
                all == text::texts(self.deltas@),
                out@ == concatenated(all.take(i as int)),
            decreases self.deltas@.len() - i,
        {
            out.append(self.deltas[i].as_str());
            assert(all.take(i + 1).drop_last() =~= all.take(i as int));
            assert(all.take(i + 1).last() == self.deltas@[i as int]@);
            i = i + 1;
        }
        assert(all.take(i as int) =~= all);
        out
    }
}

/// The events of a tool call: the call, and its result if it has one.
pub open spec fn call_events(call: ScriptedToolCall) -> Seq<StreamEventView> {
    let made = StreamEventView::ToolCall {
        args: call.args@,
        call_id: call.call_id@,
        kind: call.kind,
        tool_name: call.tool_name@,
    };
    match call.result {
        Some(result) => seq![
            made,
            StreamEventView::ToolResult {
                call_id: call.call_id@,
                error: None,
                result: Some(result@),
            },
        ],
        None => seq![made],
    }
}

/// The events of some tool calls.
pub open spec fn calls_events(calls: Seq<ScriptedToolCall>) -> Seq<StreamEventView>
    decreases calls.len(),
{
    if calls.len() == 0 {
        Seq::empty()
    } else {
        calls_events(calls.drop_last()) + call_events(calls.last())
    }
}

/// The events of a reply: its tool calls, then its pieces, then the end.
pub open spec fn reply_events(reply: ScriptedReplyView) -> Seq<StreamEventView> {
    calls_events(reply.tool_calls) + reply.deltas.map_values(
        |d: Seq<char>| StreamEventView::Delta(d),
    ) + seq![StreamEventView::Done { usage: reply.usage }]
}

/// A scripted provider. It gives its replies one after the other, and the last one for
/// ever; it remembers what it was asked, and of whom.
#[derive(Debug)]
pub struct ScriptedPrompter {
    pub agents: Vec<AgentConfig>,
    pub calls: Vec<Vec<Message>>,
    pub dispatched_to: Vec<String>,
    pub replies: Vec<ScriptedReply>,
}

/// What replies are left after one.
pub open spec fn replies_left(replies: Seq<ScriptedReplyView>) -> Seq<ScriptedReplyView> {
    if replies.len() > 1 {
        replies.drop_first()
    } else {
        replies
    }
}

/// What is said when no reply was scripted.
pub open spec fn no_replies() -> PrompterErrorView {
    PrompterErrorView::Streaming("scripted prompter has no replies left"@)
}

/// What was asked.
pub open spec fn call_views(calls: Seq<Vec<Message>>) -> Seq<Seq<MessageView>> {
    calls.map_values(|c: Vec<Message>| seqs::views(c@))
}

/// What an agent replies next.
pub open spec fn scripted(
    agents: Seq<AgentConfig>,
    replies: Seq<ScriptedReplyView>,
    agent_name: Seq<char>,
) -> Result<ScriptedReplyView, PrompterErrorView> {
    if agent_named(agents, agent_name) is None {
        Err(PrompterErrorView::UnknownAgent(agent_name))
    } else if replies.len() == 0 {
        Err(no_replies())
    } else {
        Ok(replies[0])
    }
}

impl ScriptedPrompter {
    /// A provider with some replies.
    pub fn new(agents: Vec<AgentConfig>, replies: Vec<ScriptedReply>) -> (r: Self)
        ensures
            r.agents == agents,
            r.replies == replies,
            r.calls@.len() == 0,
            r.dispatched_to@.len() == 0,
    {
        ScriptedPrompter { agents, calls: Vec::new(), dispatched_to: Vec::new(), replies }
    }

    /// Takes the next reply.
    fn take_reply(&mut self) -> (r: Result<ScriptedReply, PrompterError>)
        ensures
            final(self).agents == old(self).agents,
            final(self).calls == old(self).calls,
            final(self).dispatched_to == old(self).dispatched_to,
            seqs::views(final(self).replies@) == replies_left(seqs::views(old(self).replies@)),
            match r {
                Ok(reply) => old(self).replies@.len() > 0 && reply@ == seqs::views(
                    old(self).replies@,
                )[0],
                Err(e) => old(self).replies@.len() == 0 && e@ == no_replies(),
            },
    {
        let ghost all = seqs::views(self.replies@);
        let count: usize = self.replies.len();
        if count == 0 {
            return Err(
                PrompterError::Streaming(
                    String::from_str("scripted prompter has no replies left"),
                ),
            );
        }
        if count == 1 {
            return Ok(self.replies[0].clone());
        }
        let reply = self.replies.remove(0);
        assert(seqs::views(self.replies@) =~= all.drop_first());
        Ok(reply)
    }

    /// The next reply of an agent.
    pub fn next_reply(&mut self, agent_name: &str) -> (r: Result<ScriptedReply, PrompterError>)
        ensures
            final(self).agents == old(self).agents,
            final(self).calls == old(self).calls,
            match r {
                Ok(reply) => scripted(
                    old(self).agents@,
                    seqs::views(old(self).replies@),
                    agent_name@,
                ) == Ok::<_, PrompterErrorView>(reply@),
                Err(e) => scripted(
                    old(self).agents@,
                    seqs::views(old(self).replies@),
                    agent_name@,
                ) == Err::<ScriptedReplyView, _>(e@),
            },
            if agent_named(old(self).agents@, agent_name@) is Some {
                &&& text::texts(final(self).dispatched_to@) == text::texts(
                    old(self).dispatched_to@,
                ).push(agent_name@)
                &&& seqs::views(final(self).replies@) == replies_left(
                    seqs::views(old(self).replies@),
                )
            } else {
                &&& final(self).dispatched_to == old(self).dispatched_to
                &&& final(self).replies == old(self).replies
            },
    {
        if find_agent(&self.agents, agent_name).is_none() {
            return Err(PrompterError::UnknownAgent(String::from_str(agent_name)));
        }
        let name = String::from_str(agent_name);
        proof {
            text::lemma_texts_push(self.dispatched_to@, name);
        }
        self.dispatched_to.push(name);
        self.take_reply()
    }

    /// Remembers what was asked.
    fn remember(&mut self, messages: Vec<Message>)
        ensures
            final(self).agents == old(self).agents,
            final(self).dispatched_to == old(self).dispatched_to,
            final(self).replies == old(self).replies,
            call_views(final(self).calls@) == call_views(old(self).calls@).push(
                seqs::views(messages@),
            ),
    {
        let ghost before = call_views(self.calls@);
        self.calls.push(messages);
        assert(call_views(self.calls@) =~= before.push(seqs::views(messages@)));
    }

    /// The next reply of an agent, in one piece.
    pub fn complete(&mut self, agent_name: &str, messages: Vec<Message>) -> (r: Result<
        Completion,
        PrompterError,
    >)
        ensures
            final(self).agents == old(self).agents,
            call_views(final(self).calls@) == call_views(old(self).calls@).push(
                seqs::views(messages@),
            ),
            match (
                r,
                scripted(old(self).agents@, seqs::views(old(self).replies@), agent_name@),
            ) {
                (Ok(c), Ok(reply)) => c.text@ == concatenated(reply.deltas) && c.usage
                    == reply.usage,
                (Err(e), Err(v)) => e@ == v,
                _ => false,
            },
            if agent_named(old(self).agents@, agent_name@) is Some {
                &&& text::texts(final(self).dispatched_to@) == text::texts(
                    old(self).dispatched_to@,
                ).push(agent_name@)
                &&& seqs::views(final(self).replies@) == replies_left(
                    seqs::views(old(self).replies@),
                )
            } else {
                &&& final(self).dispatched_to == old(self).dispatched_to
                &&& final(self).replies == old(self).replies
            },
    {
        self.remember(messages);
        match self.next_reply(agent_name) {
            Ok(reply) => Ok(Completion { text: reply.full_text(), usage: reply.usage }),
            Err(e) => Err(e),
        }
    }

    /// The next reply of an agent, in its pieces.
    pub fn complete_streaming(&mut self, agent_name: &str, messages: Vec<Message>) -> (r: Result<
        Vec<StreamEvent>,
        PrompterError,
    >)
        ensures
            final(self).agents == old(self).agents,
            call_views(final(self).calls@) == call_views(old(self).calls@).push(
                seqs::views(messages@),
            ),
            match (
                r,
                scripted(old(self).agents@, seqs::views(old(self).replies@), agent_name@),
            ) {
                (Ok(events), Ok(reply)) => seqs::views(events@) == reply_events(reply),
                (Err(e), Err(v)) => e@ == v,
                _ => false,
            },
            if agent_named(old(self).agents@, agent_name@) is Some {
                &&& text::texts(final(self).dispatched_to@) == text::texts(
                    old(self).dispatched_to@,
                ).push(agent_name@)
                &&& seqs::views(final(self).replies@) == replies_left(
                    seqs::views(old(self).replies@),
                )
            } else {
                &&& final(self).dispatched_to == old(self).dispatched_to
                &&& final(self).replies == old(self).replies
            },
    {
        self.remember(messages);
        match self.next_reply(agent_name) {
            Ok(reply) => Ok(stream_reply(&reply)),
            Err(e) => Err(e),
        }
    }

    /// The next reply, whoever is asked.
    pub fn prompt_with(&mut self, messages: Vec<Message>) -> (r: Result<Completion, PrompterError>)
        ensures
            final(self).agents == old(self).agents,
            final(self).dispatched_to == old(self).dispatched_to,
            call_views(final(self).calls@) == call_views(old(self).calls@).push(
                seqs::views(messages@),
            ),
            seqs::views(final(self).replies@) == replies_left(seqs::views(old(self).replies@)),
            match r {
                Ok(c) => {
                    &&& old(self).replies@.len() > 0
                    &&& c.text@ == concatenated(seqs::views(old(self).replies@)[0].deltas)
                    &&& c.usage == seqs::views(old(self).replies@)[0].usage
                },
                Err(e) => old(self).replies@.len() == 0 && e@ == no_replies(),
            },
    {
        self.remember(messages);
        match self.take_reply() {
            Ok(reply) => Ok(Completion { text: reply.full_text(), usage: reply.usage }),
            Err(e) => Err(e),
        }
    }

    /// The next reply to one text, or what the error says.
    pub fn one_shot(&mut self, user_text: &str) -> (r: Result<String, String>)
        ensures
            final(self).agents == old(self).agents,
            call_views(final(self).calls@) == call_views(old(self).calls@).push(
                seq![MessageView { content: user_text@, role: Role::User }],
            ),
            final(self).dispatched_to == old(self).dispatched_to,
            seqs::views(final(self).replies@) == replies_left(seqs::views(old(self).replies@)),
            match r {
                Ok(t) => old(self).replies@.len() > 0 && t@ == concatenated(
                    seqs::views(old(self).replies@)[0].deltas,
                ),
                Err(e) => old(self).replies@.len() == 0 && e@ == no_replies().message(),
            },
    {
        let mut messages: Vec<Message> = Vec::new();
        messages.push(Message { content: String::from_str(user_text), role: Role::User });
        assert(seqs::views(messages@) =~= seq![
            MessageView { content: user_text@, role: Role::User },
        ]);
        match self.prompt_with(messages) {
            Ok(c) => Ok(c.text),
            Err(e) => Err(e.to_text()),
        }
    }
}

/// The events of a reply.
fn stream_reply(reply: &ScriptedReply) -> (r: Vec<StreamEvent>)
    ensures
        seqs::views(r@) == reply_events(reply@),
{
    let mut events: Vec<StreamEvent> = Vec::new();
    let ghost calls = reply.tool_calls@;
    let mut i: usize = 0;
    assert(calls.take(0) =~= Seq::empty());
    assert(seqs::views(events@) =~= calls_events(calls.take(0)));
    while i < reply.tool_calls.len()
        invariant
            i <= reply.tool_calls@.len(),
            calls == reply.tool_calls@,
            seqs::views(events@) == calls_events(calls.take(i as int)),
        decreases reply.tool_calls@.len() - i,
    {
        let call: &ScriptedToolCall = &reply.tool_calls[i];
        let ghost before = seqs::views(events@);
        let made = StreamEvent::ToolCall {
            args: call.args.clone(),
            call_id: call.call_id.clone(),
            kind: call.kind,
            tool_name: call.tool_name.clone(),
        };
        events.push(made);
        assert(seqs::views(events@) =~= before.push(made@));
        if let Some(result) = &call.result {
            let came = StreamEvent::ToolResult {
                call_id: call.call_id.clone(),
                error: None,
                result: Some(result.clone()),
            };
            events.push(came);
            assert(seqs::views(events@) =~= before.push(made@).push(came@));
        }
        assert(calls.take(i + 1).drop_last() =~= calls.take(i as int));
        assert(calls.take(i + 1).last() == *call);
        assert(seqs::views(events@) =~= before + call_events(*call));
        i = i + 1;
    }
    assert(calls.take(i as int) =~= calls);
    let ghost front = seqs::views(events@);
    let ghost texts = text::texts(reply.deltas@);
    let ghost as_delta = |d: Seq<char>| StreamEventView::Delta(d);
    let mut j: usize = 0;
    assert(front + texts.take(0).map_values(as_delta) =~= front);
    while j < reply.deltas.len()
        invariant
            j <= reply.deltas@.len(),
            texts == text::texts(reply.deltas@),
            as_delta == (|d: Seq<char>| StreamEventView::Delta(d)),
            seqs::views(events@) == front + texts.take(j as int).map_values(as_delta),
        decreases reply.deltas@.len() - j,
    {
        let ghost before = seqs::views(events@);
        let delta = StreamEvent::Delta(reply.deltas[j].clone());
        events.push(delta);
        assert(seqs::views(events@) =~= before.push(delta@));
        assert(front + texts.take(j + 1).map_values(as_delta) =~= before.push(delta@));
        j = j + 1;
    }
    assert(texts.take(j as int) =~= texts);
    let ghost before = seqs::views(events@);
    let done = StreamEvent::Done { usage: reply.usage };
    events.push(done);
    assert(seqs::views(events@) =~= before.push(done@));
    assert(seqs::views(events@) =~= reply_events(reply@));
    events
}

/// A streamed reply and one in a piece say the same: the pieces of the stream, put
/// together, are the text, and the end gives the usage.
pub proof fn law_stream_says_the_text(reply: ScriptedReplyView)
    ensures
        concatenated(seqs::somes(reply_events(reply).map_values(|e: StreamEventView| delta_of(e))))
            == concatenated(reply.deltas),
        reply_events(reply).last() == (StreamEventView::Done { usage: reply.usage }),
{
    let f = |e: StreamEventView| delta_of(e);
    let calls = calls_events(reply.tool_calls);
    let deltas = reply.deltas.map_values(|d: Seq<char>| StreamEventView::Delta(d));
    let done = seq![StreamEventView::Done { usage: reply.usage }];
    assert(reply_events(reply).map_values(f) =~= calls.map_values(f) + deltas.map_values(f)
        + done.map_values(f));
    lemma_calls_say_nothing(reply.tool_calls);
    lemma_deltas_say(reply.deltas);
    seqs::lemma_somes_add(calls.map_values(f) + deltas.map_values(f), done.map_values(f));
    seqs::lemma_somes_add(calls.map_values(f), deltas.map_values(f));
    assert(done.map_values(f) =~= seq![None::<Seq<char>>]);
    let none = seq![None::<Seq<char>>];
    lemma_somes_of_none(none);
    assert(Seq::<Seq<char>>::empty() + reply.deltas + Seq::<Seq<char>>::empty() =~= reply.deltas);
}

/// The piece of text in an event.
pub open spec fn delta_of(event: StreamEventView) -> Option<Seq<char>> {
    match event {
        StreamEventView::Delta(d) => Some(d),
        _ => None,
    }
}

proof fn lemma_calls_say_nothing(calls: Seq<ScriptedToolCall>)
    ensures
        seqs::somes(calls_events(calls).map_values(|e: StreamEventView| delta_of(e))) == Seq::<
            Seq<char>,
        >::empty(),
    decreases calls.len(),
{
    let f = |e: StreamEventView| delta_of(e);
    if calls.len() == 0 {
        assert(calls_events(calls).map_values(f) =~= Seq::empty());
    } else {
        lemma_calls_say_nothing(calls.drop_last());
        let front = calls_events(calls.drop_last());
        let last = call_events(calls.last());
        assert((front + last).map_values(f) =~= front.map_values(f) + last.map_values(f));
        seqs::lemma_somes_add(front.map_values(f), last.map_values(f));
        let s = last.map_values(f);
        assert forall|i: int| 0 <= i < s.len() implies #[trigger] s[i] is None by {}
        lemma_somes_of_none(s);
    }
}

proof fn lemma_somes_of_none<T>(s: Seq<Option<T>>)
    requires
        forall|i: int| 0 <= i < s.len() ==> #[trigger] s[i] is None,
    ensures
        seqs::somes(s) == Seq::<T>::empty(),
    decreases s.len(),
{
    if s.len() > 0 {
        assert(s.drop_last() =~= s.take(s.len() - 1));
        lemma_somes_of_none(s.drop_last());
        assert(s.last() is None);
    }
}

proof fn lemma_deltas_say(deltas: Seq<Seq<char>>)
    ensures
        seqs::somes(
            deltas.map_values(|d: Seq<char>| StreamEventView::Delta(d)).map_values(
                |e: StreamEventView| delta_of(e),
            ),
        ) == deltas,
    decreases deltas.len(),
{
    let g = |d: Seq<char>| StreamEventView::Delta(d);
    let f = |e: StreamEventView| delta_of(e);
    let s = deltas.map_values(g).map_values(f);
    if deltas.len() == 0 {
        assert(seqs::somes(s) =~= deltas);
    } else {
        lemma_deltas_say(deltas.drop_last());
        assert(s.drop_last() =~= deltas.drop_last().map_values(g).map_values(f));
        assert(s.last() == Some(deltas.last()));
        assert(deltas.drop_last().push(deltas.last()) =~= deltas);
    }
}

/// Texts that are put together in two runs are put together as one.
pub proof fn law_concatenated_splits(a: Seq<Seq<char>>, b: Seq<Seq<char>>, one: Seq<char>)
    ensures
        concatenated(a + b) == concatenated(a) + concatenated(b),
        concatenated(seq![one]) == one,
        concatenated(Seq::empty()) == Seq::<char>::empty(),
    decreases b.len(),
{
    reveal_with_fuel(concatenated, 2);
    assert(seq![one].drop_last() =~= Seq::empty());
    assert(concatenated(seq![one]) =~= one);
    if b.len() == 0 {
        assert(a + b =~= a);
        assert(concatenated(a) + concatenated(b) =~= concatenated(a));
    } else {
        law_concatenated_splits(a, b.drop_last(), one);
        assert((a + b).drop_last() =~= a + b.drop_last());
        assert(concatenated(a + b) =~= concatenated(a) + concatenated(b));
    }
}

/// Every tool call of a reply is announced with its name, arguments, identifier and kind,
/// and its result, if it has one, follows under the same identifier.
pub proof fn law_every_call_is_streamed(reply: ScriptedReplyView, k: int)
    requires
        0 <= k < reply.tool_calls.len(),
    ensures
        ({
            let events = reply_events(reply);
            let call = reply.tool_calls[k];
            exists|i: int|
                0 <= i < events.len() && (#[trigger] events[i] matches StreamEventView::ToolCall {
                    args,
                    call_id,
                    kind,
                    tool_name,
                } && args == call.args@ && call_id == call.call_id@ && kind == call.kind
                    && tool_name == call.tool_name@) && (call.result matches Some(result) ==> i + 1
                    < events.len() && events[i + 1] == (StreamEventView::ToolResult {
                    call_id: call.call_id@,
                    error: None,
                    result: Some(result@),
                }))
        }),
{
    let events = reply_events(reply);
    let calls = calls_events(reply.tool_calls);
    let call = reply.tool_calls[k];
    lemma_call_is_streamed(reply.tool_calls, k);
    let i = calls_events(reply.tool_calls.take(k)).len() as int;
    let own = call_events(call);
    assert forall|j: int| 0 <= j < own.len() implies events[i + j] == #[trigger] own[j] by {
        assert(calls.subrange(i, i + own.len())[j] == own[j]);
    }
    assert(events[i] == own[0]);
    if call.result is Some {
        assert(events[i + 1] == own[1]);
    }
}

proof fn lemma_call_is_streamed(calls: Seq<ScriptedToolCall>, k: int)
    requires
        0 <= k < calls.len(),
    ensures
        ({
            let i = calls_events(calls.take(k)).len() as int;
            let own = call_events(calls[k]);
            i + own.len() <= calls_events(calls).len() && calls_events(calls).subrange(
                i,
                i + own.len(),
            ) == own
        }),
    decreases calls.len(),
{
    let i = calls_events(calls.take(k)).len() as int;
    let own = call_events(calls[k]);
    let all = calls_events(calls);
    if k == calls.len() - 1 {
        assert(calls.take(k) =~= calls.drop_last());
        assert(all.subrange(i, i + own.len()) =~= own);
    } else {
        let rest = calls.drop_last();
        lemma_call_is_streamed(rest, k);
        assert(rest.take(k) =~= calls.take(k));
        assert(all.subrange(i, i + own.len()) =~= calls_events(rest).subrange(i, i + own.len()));
    }
}

/// A stream has one event for each piece, one or two for each call, and one for the end.
pub proof fn law_stream_has_nothing_else(reply: ScriptedReplyView)
    ensures
        reply_events(reply).len() == calls_events(reply.tool_calls).len() + reply.deltas.len() + 1,
        reply.tool_calls.len() == 0 ==> reply_events(reply).len() == reply.deltas.len() + 1,
        forall|i: int|
            0 <= i < reply.deltas.len() ==> reply_events(reply)[calls_events(
                reply.tool_calls,
            ).len() + i] == StreamEventView::Delta(#[trigger] reply.deltas[i]),
{
}

/// Replies come one after the other, and the last one comes for ever.
pub proof fn law_last_reply_stays(
    agents: Seq<AgentConfig>,
    replies: Seq<ScriptedReplyView>,
    name: Seq<char>,
)
    requires
        agent_named(agents, name) is Some,
    ensures
        replies.len() > 0 ==> scripted(agents, replies, name) == Ok::<_, PrompterErrorView>(
            replies[0],
        ),
        replies.len() == 0 ==> scripted(agents, replies, name) is Err,
        replies.len() > 1 ==> scripted(agents, replies_left(replies), name) == Ok::<
            _,
            PrompterErrorView,
        >(replies[1]) && replies_left(replies).len() == replies.len() - 1,
        replies.len() == 1 ==> replies_left(replies) == replies,
{
}

/// What was asked is remembered message by message, and a reply that gives no usage took one
/// token.
pub proof fn law_calls_are_remembered(calls: Seq<Vec<Message>>, i: int)
    ensures
        call_views(calls).len() == calls.len(),
        0 <= i < calls.len() ==> call_views(calls)[i] == seqs::views(calls[i]@),
        one_token().total_tokens == 1,
        one_token().output_tokens == 1,
        one_token().input_tokens == 0,
{
}

} // verus!
