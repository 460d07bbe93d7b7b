use rusty_ui::assistant::{
    answered, apply_event, attachment_text, begin_ask, clear_conversation, stopped_message,
    AgentEvent, Content, Conversation, Role, ATTACHMENT_CAP,
};

/// A short file goes whole; a long one is cut at a character boundary and
/// says so.
#[test]
fn a_long_file_is_cut_at_a_character_and_marked() {
    assert_eq!(attachment_text("fn main() {}"), "fn main() {}");
    let long: String = std::iter::repeat_n('中', ATTACHMENT_CAP).collect();
    let sent = attachment_text(&long);
    assert!(sent.len() < long.len());
    assert!(sent.contains("bytes omitted]"), "{}", &sent[sent.len() - 40..]);
    assert!(sent.starts_with("中中中"));
}

/// The cut falls on the last whole character, and the count is exact.
#[test]
fn the_cut_says_how_much_was_left_out() {
    let mut text = "a".repeat(ATTACHMENT_CAP - 1);
    text.push('é');
    text.push_str("tail");
    let sent = attachment_text(&text);
    let kept = "a".repeat(ATTACHMENT_CAP - 1);
    assert_eq!(sent, format!("{kept}\n… [6 bytes omitted]"));
    let exact = "b".repeat(ATTACHMENT_CAP);
    assert_eq!(attachment_text(&exact), exact);
}

fn empty() -> Conversation {
    Conversation {
        messages: Vec::new(),
        pending: String::new(),
        thinking: String::new(),
        cut_short: false,
        activity: Vec::new(),
        usage: None,
        streaming: false,
    }
}

#[test]
fn a_streamed_answer_is_folded_in_as_it_comes() {
    let mut chat = empty();
    begin_ask(&mut chat, "why?".to_string(), Some(("a.rs".to_string(), "fn a() {}".to_string())));
    assert_eq!(chat.messages.len(), 1);
    assert_eq!(chat.messages[0].role, Role::User);
    assert_eq!(chat.messages[0].content.len(), 2);
    assert!(matches!(&chat.messages[0].content[0], Content::Text { text } if text == "why?"));
    assert!(
        matches!(&chat.messages[0].content[1], Content::Attachment { path, text } if path == "a.rs" && text == "fn a() {}")
    );
    assert!(chat.streaming);
    apply_event(&mut chat, AgentEvent::TextDelta { text: "Be".to_string() });
    apply_event(&mut chat, AgentEvent::TextDelta { text: "cause".to_string() });
    apply_event(&mut chat, AgentEvent::ThinkingDelta { text: "hm".to_string() });
    apply_event(&mut chat, AgentEvent::ToolStarted { id: "t1".to_string(), name: "read".to_string() });
    apply_event(&mut chat, AgentEvent::ToolFinished { id: "t1".to_string(), ok: true });
    apply_event(&mut chat, AgentEvent::ToolFinished { id: "zz".to_string(), ok: false });
    apply_event(&mut chat, AgentEvent::Usage { input_tokens: 10, output_tokens: 20 });
    apply_event(&mut chat, AgentEvent::DoneAtCap);
    assert_eq!(chat.pending, "Because");
    assert_eq!(chat.thinking, "hm");
    assert_eq!(chat.activity.len(), 1);
    assert_eq!(chat.activity[0].ok, Some(true));
    assert_eq!(chat.usage, Some((10, 20)));
    assert!(chat.cut_short);

    let stopped = stopped_message(&chat, "stopped").expect("something streamed");
    assert_eq!(stopped.role, Role::Assistant);
    assert!(matches!(&stopped.content[0], Content::Thinking { text } if text == "hm"));
    assert!(matches!(&stopped.content[1], Content::Text { text } if text == "Because\n\n*stopped*"));

    answered(&mut chat, Vec::new());
    assert!(!chat.streaming && chat.pending.is_empty() && chat.thinking.is_empty());
    assert!(stopped_message(&chat, "stopped").is_none());
    clear_conversation(&mut chat);
    assert!(chat.messages.is_empty() && chat.activity.is_empty() && chat.usage.is_none());
}
