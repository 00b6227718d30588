use browser_agent::{
    build_user_prompt, decode_action, Action, Conversation, ConversationError, Message, Role,
    DEFAULT_GOAL, SYSTEM_PROMPT,
};

fn reply(text: &str) -> Result<Vec<Message>, String> {
    Ok(vec![Message::new(Role::Assistant, text.to_string())])
}

#[test]
fn new_conversation_holds_system_prompt_alone() {
    let c = Conversation::new();
    assert_eq!(c.goal(), DEFAULT_GOAL);
    assert_eq!(c.current_host(), None);
    assert_eq!(c.messages().len(), 1);
    assert_eq!(c.messages()[0].role, Role::System);
    assert_eq!(c.messages()[0].content, SYSTEM_PROMPT);
}

#[test]
fn with_prompt_uses_given_goal_and_prompt() {
    let c = Conversation::with_prompt("find pricing".to_string(), "be brief".to_string());
    assert_eq!(c.goal(), "find pricing");
    assert_eq!(c.messages().len(), 1);
    assert_eq!(c.messages()[0], Message::new(Role::System, "be brief".to_string()));
}

#[test]
fn session_scenario() {
    let mut c = Conversation::new();
    c.begin_request("https://a.example/page1", "<p id=0>hi</p>").unwrap();
    assert_eq!(c.current_host(), Some("a.example"));
    assert_eq!(c.messages().len(), 2);
    assert_eq!(c.messages()[1].role, Role::User);
    let action = c.finish_request(reply("CLICK 0")).unwrap();
    assert_eq!(action, Action::Click(0));
    assert_eq!(c.messages().len(), 3);
    assert_eq!(c.messages()[2].role, Role::Assistant);
    assert_eq!(c.messages()[2].content, "CLICK 0");

    c.begin_request("https://a.example/page2", "...").unwrap();
    assert_eq!(c.messages().len(), 4);
    assert_eq!(c.current_host(), Some("a.example"));

    c.begin_request("https://b.example/x", "...").unwrap();
    assert_eq!(c.current_host(), Some("b.example"));
    assert_eq!(c.messages().len(), 2);
    assert_eq!(c.messages()[0].content, SYSTEM_PROMPT);
    assert_eq!(c.messages()[1].role, Role::User);
}

#[test]
fn user_message_layout() {
    let mut c = Conversation::with_prompt("find pricing".to_string(), "sys".to_string());
    c.begin_request("https://a.example/p", "<p id=0>hi</p>").unwrap();
    assert_eq!(
        c.messages()[1].content,
        "OBJECTIVE: find pricing\nCURRENT URL: https://a.example/p\nPAGE CONTENT: <p id=0>hi</p>"
    );
    assert_eq!(build_user_prompt("g", "u", "p"), "OBJECTIVE: g\nCURRENT URL: u\nPAGE CONTENT: p");
}

#[test]
fn same_host_keeps_history() {
    let mut c = Conversation::new();
    c.begin_request("https://a.example/1", "x").unwrap();
    c.finish_request(reply("CLICK 1")).unwrap();
    let before = c.messages().clone();
    c.begin_request("http://a.example/2?q=1", "y").unwrap();
    assert_eq!(c.messages().len(), before.len() + 1);
    assert_eq!(&c.messages()[..before.len()], &before[..]);
}

#[test]
fn host_change_resets_history() {
    let mut c = Conversation::new();
    c.begin_request("https://a.example/1", "x").unwrap();
    c.finish_request(reply("CLICK 1")).unwrap();
    c.begin_request("https://b.example/1", "y").unwrap();
    assert_eq!(c.messages().len(), 2);
    assert_eq!(c.messages()[0].role, Role::System);
}

#[test]
fn failed_completion_keeps_user_message() {
    let mut c = Conversation::new();
    c.begin_request("https://a.example/1", "x").unwrap();
    assert!(c.finish_request(Err("timeout".to_string())).is_err());
    c.begin_request("https://a.example/2", "y").unwrap();
    assert_eq!(c.messages().len(), 3);
    assert_eq!(c.messages()[1].role, Role::User);
    assert_eq!(c.messages()[2].role, Role::User);
}

#[test]
fn invalid_url_changes_nothing() {
    let mut c = Conversation::new();
    c.begin_request("https://a.example/1", "x").unwrap();
    c.finish_request(reply("CLICK 1")).unwrap();
    let before = c.messages().clone();
    assert_eq!(c.begin_request("not a url", "y"), Err(ConversationError::InvalidUrl));
    assert_eq!(c.messages(), &before);
    assert_eq!(c.current_host(), Some("a.example"));
}

#[test]
fn url_without_host_is_refused() {
    let mut c = Conversation::new();
    assert_eq!(c.enforce_context_length("mailto:someone@a.example"), Err(ConversationError::InvalidUrl));
    assert_eq!(c.current_host(), None);
    assert_eq!(c.messages().len(), 1);
}

#[test]
fn enforce_context_length_takes_host() {
    let mut c = Conversation::new();
    assert_eq!(c.enforce_context_length("https://Docs.Example.com:8080/a/b"), Ok(()));
    assert_eq!(c.current_host(), Some("docs.example.com"));
    assert_eq!(c.messages().len(), 1);
}

#[test]
fn apply_host_resets_only_on_change() {
    let mut c = Conversation::new();
    c.apply_host("a.example".to_string());
    c.begin_request("https://a.example/", "x").unwrap();
    assert_eq!(c.messages().len(), 2);
    c.apply_host("a.example".to_string());
    assert_eq!(c.messages().len(), 2);
    c.apply_host("c.example".to_string());
    assert_eq!(c.messages().len(), 1);
    assert_eq!(c.current_host(), Some("c.example"));
}

#[test]
fn completion_failure_is_reported() {
    let mut c = Conversation::new();
    c.begin_request("https://a.example/1", "x").unwrap();
    let r = c.finish_request(Err("network down".to_string()));
    assert_eq!(r, Err(ConversationError::CompletionFailed("network down".to_string())));
    assert_eq!(c.messages().len(), 2);
}

#[test]
fn empty_choices_append_nothing() {
    let mut c = Conversation::new();
    c.begin_request("https://a.example/1", "x").unwrap();
    let r = c.finish_request(Ok(Vec::new()));
    assert_eq!(r, Err(ConversationError::NoCompletionChoice));
    assert_eq!(c.messages().len(), 2);
    assert_eq!(c.messages()[1].role, Role::User);
}

#[test]
fn undecodable_reply_is_kept_in_history() {
    let mut c = Conversation::new();
    c.begin_request("https://a.example/1", "x").unwrap();
    let r = c.finish_request(reply("I would click the button"));
    assert_eq!(r, Err(ConversationError::ActionDecodeFailed("I would click the button".to_string())));
    assert_eq!(c.messages().len(), 3);
    assert_eq!(c.messages()[2].content, "I would click the button");
}

#[test]
fn first_choice_is_taken_with_its_role() {
    let mut c = Conversation::new();
    c.begin_request("https://a.example/1", "x").unwrap();
    let choices = vec![
        Message::new(Role::System, "GOAL \"read docs\"".to_string()),
        Message::new(Role::Assistant, "CLICK 9".to_string()),
    ];
    let r = c.finish_request(Ok(choices));
    assert_eq!(r, Ok(Action::Goal("read docs".to_string())));
    assert_eq!(c.messages().len(), 3);
    assert_eq!(c.messages()[2].role, Role::System);
}

#[test]
fn set_goal_changes_next_prompt() {
    let mut c = Conversation::new();
    c.set_goal("buy socks".to_string());
    c.begin_request("https://a.example/1", "x").unwrap();
    assert!(c.messages()[1].content.starts_with("OBJECTIVE: buy socks\n"));
}
