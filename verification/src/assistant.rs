//! The assistant's window: what goes along with a question, and how the
//! streamed answer is folded into the transcript.

use vstd::prelude::*;
use vstd::string::StringSliceAdditionalSpecFns;
use vstd::utf8::{
    decode_utf8, decode_utf8_split, encode_utf8, encode_utf8_decode_utf8, encode_utf8_valid_utf8,
    is_char_boundary, is_char_boundary_start_end_of_seq,
};

use crate::text::{concat, decimal, decimal_of, owned, same_text, string_of};

verus! {

/// The most of a file that goes along with a question, in bytes: about
/// fifteen thousand tokens.
pub const ATTACHMENT_CAP: usize = 60000;

/// The last character boundary at or before `k`.
pub open spec fn cut_point(bytes: Seq<u8>, k: int) -> int
    decreases k,
{
    if k <= 0 || is_char_boundary(bytes, k) {
        k
    } else {
        cut_point(bytes, k - 1)
    }
}

/// A file's text as sent: whole when its UTF-8 fits, otherwise its first
/// `ATTACHMENT_CAP` bytes cut back to a character boundary, and a line
/// saying how many bytes were left out.
pub open spec fn attachment_of(text: Seq<char>) -> Seq<char> {
    let bytes = encode_utf8(text);
    if bytes.len() <= ATTACHMENT_CAP {
        text
    } else {
        let end = cut_point(bytes, ATTACHMENT_CAP as int);
        decode_utf8(bytes.subrange(0, end)) + "\n… ["@ + decimal((bytes.len() - end) as nat)
            + " bytes omitted]"@
    }
}

proof fn lemma_cut_point(bytes: Seq<u8>, k: int)
    requires
        0 <= k,
        is_char_boundary(bytes, 0),
    ensures
        0 <= cut_point(bytes, k) <= k,
        is_char_boundary(bytes, cut_point(bytes, k)),
    decreases k,
{
    if k > 0 && !is_char_boundary(bytes, k) {
        lemma_cut_point(bytes, k - 1);
    }
}

/// What goes along with a question begins with the start of the file:
/// the part kept is a prefix of the text, and what is sent begins with it.
pub proof fn lemma_attachment_begins_with_the_text(text: Seq<char>)
    ensures
        exists|kept: Seq<char>| kept.is_prefix_of(text) && kept.is_prefix_of(attachment_of(text))
            && (kept == text || encode_utf8(kept).len() <= ATTACHMENT_CAP),
{
    let bytes = encode_utf8(text);
    encode_utf8_valid_utf8(text);
    is_char_boundary_start_end_of_seq(bytes);
    encode_utf8_decode_utf8(text);
    if bytes.len() <= ATTACHMENT_CAP {
        assert(text.is_prefix_of(text)) by {
            assert(text.subrange(0, text.len() as int) =~= text);
        }
        assert(text.is_prefix_of(attachment_of(text))) by {
            assert(attachment_of(text).subrange(0, text.len() as int) =~= text);
        }
    } else {
        let end = cut_point(bytes, ATTACHMENT_CAP as int);
        lemma_cut_point(bytes, ATTACHMENT_CAP as int);
        decode_utf8_split(bytes, end);
        let kept = decode_utf8(bytes.subrange(0, end));
        assert(kept.is_prefix_of(text)) by {
            assert(text.subrange(0, kept.len() as int) =~= kept);
        }
        assert(kept.is_prefix_of(attachment_of(text))) by {
            assert(attachment_of(text).subrange(0, kept.len() as int) =~= kept);
        }
        vstd::utf8::valid_utf8_split(bytes, end);
        vstd::utf8::decode_utf8_encode_utf8(bytes.subrange(0, end));
        assert(encode_utf8(kept).len() <= ATTACHMENT_CAP);
    }
}

/// A file's text as sent with a question.
pub fn attachment_text(text: &str) -> (sent: String)
    ensures
        sent@ == attachment_of(text@),
{
    proof {
        encode_utf8_valid_utf8(text@);
        is_char_boundary_start_end_of_seq(encode_utf8(text@));
    }
    let len = text.as_bytes().len();
    let ghost bytes = text.spec_bytes();
    assert(bytes == encode_utf8(text@));
    assert(len == bytes.len());
    if len <= ATTACHMENT_CAP {
        return owned(text);
    }
    let mut end = ATTACHMENT_CAP;
    while !text.is_char_boundary(end)
        invariant
            bytes == text.spec_bytes(),
            bytes == encode_utf8(text@),
            is_char_boundary(bytes, 0),
            end <= ATTACHMENT_CAP,
            cut_point(bytes, ATTACHMENT_CAP as int) == cut_point(bytes, end as int),
        decreases end,
    {
        end = end - 1;
    }
    let (head, _) = text.split_at(end);
    proof {
        encode_utf8_decode_utf8(head@);
        assert(head@ == decode_utf8(bytes.subrange(0, end as int)));
    }
    assert(cut_point(bytes, end as int) == end as int);
    let omitted = (len - end) as u64;
    let marked = concat(head, "\n… [");
    let count = string_of(&decimal_of(omitted));
    let with_count = concat(marked.as_str(), count.as_str());
    let sent = concat(with_count.as_str(), " bytes omitted]");
    assert(sent@ =~= attachment_of(text@));
    sent
}

// ---------------------------------------------------------------------------
// The transcript
// ---------------------------------------------------------------------------

/// Who said it.
#[derive(Clone, Copy, PartialEq, Eq, Debug, Structural)]
pub enum Role {
    User,
    Assistant,
}

/// One part of a message.
pub enum Content {
    Text { text: String },
    /// A file sent along: its path and its text.
    Attachment { path: String, text: String },
    /// What the model thought before it answered.
    Thinking { text: String },
}

/// One message of the transcript.
pub struct Message {
    pub role: Role,
    pub content: Vec<Content>,
}

/// A tool the model ran while answering, and whether it worked once it has
/// finished.
pub struct ToolRun {
    pub id: String,
    pub name: String,
    pub ok: Option<bool>,
}

/// The window's state.
pub struct Conversation {
    pub messages: Vec<Message>,
    /// The answer streaming in.
    pub pending: String,
    pub thinking: String,
    /// The answer hit the output cap.
    pub cut_short: bool,
    pub activity: Vec<ToolRun>,
    pub usage: Option<(u64, u64)>,
    pub streaming: bool,
}

/// One streamed event of an answer.
pub enum AgentEvent {
    TextDelta { text: String },
    ThinkingDelta { text: String },
    Usage { input_tokens: u64, output_tokens: u64 },
    ToolStarted { id: String, name: String },
    ToolFinished { id: String, ok: bool },
    /// The provider stopped because the answer reached its output cap.
    DoneAtCap,
    /// Anything else the provider says; the tool events above already
    /// cover what the window shows of it.
    Other,
}

/// A conversation with nothing under way: nothing streaming in, no
/// thinking, no tools, no usage, not cut short.
pub open spec fn is_quiet(c: Conversation) -> bool {
    &&& c.pending@.len() == 0
    &&& c.thinking@.len() == 0
    &&& !c.cut_short
    &&& c.activity@.len() == 0
    &&& c.usage is None
}

/// Ask a question: it joins the transcript — with the file, when one is
/// sent along — and the window starts streaming an answer from nothing.
pub fn begin_ask(chat: &mut Conversation, question: String, context: Option<(String, String)>)
    ensures
        final(chat).messages@.len() == old(chat).messages@.len() + 1,
        final(chat).messages@.take(old(chat).messages@.len() as int) == old(chat).messages@,
        final(chat).messages@.last().role == Role::User,
        final(chat).messages@.last().content@.len() == (if context is Some {
            2int
        } else {
            1int
        }),
        final(chat).messages@.last().content@[0] == (Content::Text { text: question }),
        match context {
            Some((p, t)) => final(chat).messages@.last().content@[1] == (Content::Attachment { path: p, text: t }),
            None => true,
        },
        is_quiet(*final(chat)),
        final(chat).streaming,
{
    let mut content: Vec<Content> = Vec::new();
    content.push(Content::Text { text: question });
    match context {
        Some((path, text)) => {
            content.push(Content::Attachment { path, text });
        },
        None => {},
    }
    chat.messages.push(Message { role: Role::User, content });
    chat.pending = String::new();
    chat.thinking = String::new();
    chat.cut_short = false;
    chat.activity = Vec::new();
    chat.usage = None;
    chat.streaming = true;
}

/// The first tool run at or after `k` with this id.
pub open spec fn run_from(runs: Seq<ToolRun>, id: Seq<char>, k: int) -> Option<int>
    decreases runs.len() - k,
{
    if k < 0 || k >= runs.len() {
        None
    } else if runs[k].id@ == id {
        Some(k)
    } else {
        run_from(runs, id, k + 1)
    }
}

/// Mark the first run with this id as finished.
fn finish_run(runs: &mut Vec<ToolRun>, id: &str, ok: bool)
    ensures
        match run_from(old(runs)@, id@, 0) {
            Some(i) => 0 <= i < old(runs)@.len() && final(runs)@ == old(runs)@.update(
                i,
                ToolRun { ok: Some(ok), ..old(runs)@[i] },
            ),
            None => final(runs)@ == old(runs)@,
        },
{
    let mut i: usize = 0;
    while i < runs.len()
        invariant
            i <= runs.len(),
            runs@ == old(runs)@,
            run_from(runs@, id@, 0) == run_from(runs@, id@, i as int),
        decreases runs.len() - i,
    {
        if same_text(runs[i].id.as_str(), id) {
            let old_run = runs.remove(i);
            runs.insert(i, ToolRun { id: old_run.id, name: old_run.name, ok: Some(ok) });
            assert(runs@ =~= old(runs)@.update(i as int, ToolRun { ok: Some(ok), ..old(runs)@[i as int] }));
            return;
        }
        i = i + 1;
    }
}

/// Fold one streamed event into the window: text and thinking are added to
/// what has streamed, usage replaces usage, a tool that starts joins the
/// list, one that finishes is marked, and the cap is noted.
pub fn apply_event(chat: &mut Conversation, event: AgentEvent)
    ensures
        final(chat).messages == old(chat).messages,
        final(chat).streaming == old(chat).streaming,
        match event {
            AgentEvent::TextDelta { text } => {
                &&& final(chat).pending@ == old(chat).pending@ + text@
                &&& final(chat).thinking == old(chat).thinking
                &&& final(chat).activity == old(chat).activity
                &&& final(chat).usage == old(chat).usage
                &&& final(chat).cut_short == old(chat).cut_short
            },
            AgentEvent::ThinkingDelta { text } => {
                &&& final(chat).thinking@ == old(chat).thinking@ + text@
                &&& final(chat).pending == old(chat).pending
                &&& final(chat).activity == old(chat).activity
                &&& final(chat).usage == old(chat).usage
                &&& final(chat).cut_short == old(chat).cut_short
            },
            AgentEvent::Usage { input_tokens, output_tokens } => {
                &&& final(chat).usage == Some((input_tokens, output_tokens))
                &&& final(chat).pending == old(chat).pending
                &&& final(chat).thinking == old(chat).thinking
                &&& final(chat).activity == old(chat).activity
                &&& final(chat).cut_short == old(chat).cut_short
            },
            AgentEvent::ToolStarted { id, name } => {
                &&& final(chat).activity@ == old(chat).activity@.push(
                    ToolRun { id: id, name: name, ok: None },
                )
                &&& final(chat).pending == old(chat).pending
                &&& final(chat).thinking == old(chat).thinking
                &&& final(chat).usage == old(chat).usage
                &&& final(chat).cut_short == old(chat).cut_short
            },
            AgentEvent::ToolFinished { id, ok } => {
                &&& match run_from(old(chat).activity@, id@, 0) {
                    Some(i) => 0 <= i < old(chat).activity@.len() && final(chat).activity@ == old(chat).activity@.update(
                        i,
                        ToolRun { ok: Some(ok), ..old(chat).activity@[i] },
                    ),
                    None => final(chat).activity@ == old(chat).activity@,
                }
                &&& final(chat).pending == old(chat).pending
                &&& final(chat).thinking == old(chat).thinking
                &&& final(chat).usage == old(chat).usage
                &&& final(chat).cut_short == old(chat).cut_short
            },
            AgentEvent::DoneAtCap => {
                &&& final(chat).cut_short
                &&& final(chat).pending == old(chat).pending
                &&& final(chat).thinking == old(chat).thinking
                &&& final(chat).activity == old(chat).activity
                &&& final(chat).usage == old(chat).usage
            },
            AgentEvent::Other => *final(chat) == *old(chat),
        },
{
    match event {
        AgentEvent::TextDelta { text } => {
            chat.pending = concat(chat.pending.as_str(), text.as_str());
        },
        AgentEvent::ThinkingDelta { text } => {
            chat.thinking = concat(chat.thinking.as_str(), text.as_str());
        },
        AgentEvent::Usage { input_tokens, output_tokens } => {
            chat.usage = Some((input_tokens, output_tokens));
        },
        AgentEvent::ToolStarted { id, name } => {
            chat.activity.push(ToolRun { id, name, ok: None });
        },
        AgentEvent::ToolFinished { id, ok } => {
            finish_run(&mut chat.activity, id.as_str(), ok);
        },
        AgentEvent::DoneAtCap => {
            chat.cut_short = true;
        },
        AgentEvent::Other => {},
    }
}

/// What a question stopped on purpose leaves in the transcript: the
/// thinking that streamed and the partial answer, marked with `stopped`,
/// as one assistant message; nothing when neither streamed.
pub open spec fn stopped_parts(thinking: Seq<char>, partial: Seq<char>, stopped: Seq<char>) -> Seq<Seq<char>> {
    (if thinking.len() > 0 {
        seq![thinking]
    } else {
        Seq::empty()
    }) + (if partial.len() > 0 {
        seq![partial + "\n\n*"@ + stopped + "*"@]
    } else {
        Seq::empty()
    })
}

/// The texts of a message's parts.
pub open spec fn content_texts(c: Seq<Content>) -> Seq<Seq<char>> {
    c.map_values(|x: Content| match x {
        Content::Text { text } => text@,
        Content::Attachment { text, .. } => text@,
        Content::Thinking { text } => text@,
    })
}

/// The message a question stopped on purpose leaves behind, if any.
pub fn stopped_message(chat: &Conversation, stopped: &str) -> (message: Option<Message>)
    ensures
        match message {
            Some(m) => {
                &&& m.role == Role::Assistant
                &&& content_texts(m.content@) == stopped_parts(chat.thinking@, chat.pending@, stopped@)
                &&& content_texts(m.content@).len() > 0
                &&& m.content@.len() == stopped_parts(chat.thinking@, chat.pending@, stopped@).len()
                &&& chat.thinking@.len() > 0 ==> (m.content@[0] matches Content::Thinking { text } && text@
                    == chat.thinking@)
                &&& chat.pending@.len() > 0 ==> (m.content@.last() matches Content::Text { text } && text@
                    == chat.pending@ + "\n\n*"@ + stopped@ + "*"@)
            },
            None => stopped_parts(chat.thinking@, chat.pending@, stopped@).len() == 0,
        },
{
    let mut content: Vec<Content> = Vec::new();
    if !chat.thinking.as_str().is_empty() {
        content.push(Content::Thinking { text: owned(chat.thinking.as_str()) });
    }
    let ghost after_thinking = content@;
    if !chat.pending.as_str().is_empty() {
        let a = concat(chat.pending.as_str(), "\n\n*");
        let b = concat(a.as_str(), stopped);
        let text = concat(b.as_str(), "*");
        content.push(Content::Text { text });
    }
    assert(content_texts(content@) =~= stopped_parts(chat.thinking@, chat.pending@, stopped@));
    if content.len() == 0 {
        None
    } else {
        Some(Message { role: Role::Assistant, content })
    }
}

/// The answer ended: the backend's transcript — which holds the tool calls
/// the stream only summarised — replaces the one built while streaming,
/// and nothing is streaming any more.
pub fn answered(chat: &mut Conversation, history: Vec<Message>)
    ensures
        final(chat).messages == history,
        final(chat).pending@.len() == 0,
        final(chat).thinking@.len() == 0,
        !final(chat).streaming,
        final(chat).activity == old(chat).activity,
        final(chat).usage == old(chat).usage,
        final(chat).cut_short == old(chat).cut_short,
{
    chat.messages = history;
    chat.pending = String::new();
    chat.thinking = String::new();
    chat.streaming = false;
}

/// Throw away the transcript.
pub fn clear_conversation(chat: &mut Conversation)
    ensures
        final(chat).messages@.len() == 0,
        is_quiet(*final(chat)),
        final(chat).streaming == old(chat).streaming,
{
    chat.messages = Vec::new();
    chat.pending = String::new();
    chat.thinking = String::new();
    chat.cut_short = false;
    chat.activity = Vec::new();
    chat.usage = None;
}

} // verus!
