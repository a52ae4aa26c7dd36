use prefix_x::grok::{chat_url, ChatMessage};

#[test]
fn system_and_user_messages() {
    let s = ChatMessage::system("be brief".to_string());
    assert_eq!(s.role, "system");
    assert_eq!(s.content, "be brief");
    let u = ChatMessage::user(String::new());
    assert_eq!(u.role, "user");
    assert_eq!(u.content, "");
}

#[test]
fn chat_url_appends_the_endpoint() {
    assert_eq!(chat_url("https://api.x.ai/v1"), "https://api.x.ai/v1/chat/completions");
}
