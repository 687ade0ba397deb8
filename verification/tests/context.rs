use codehelm::context::{bounded_context, item_chars};
use codehelm::json::Json;
use codehelm::protocol::{ConversationItem, Role};

fn message(role: Role, content: String) -> ConversationItem {
    ConversationItem::Message { role, content }
}

#[test]
fn retains_system_and_recent_complete_tool_unit() {
    let items = vec![
        message(Role::System, "system".to_owned()),
        message(Role::User, "old request".repeat(20)),
        message(Role::Assistant, "old answer".repeat(20)),
        message(Role::User, "new".to_owned()),
        ConversationItem::ToolCall {
            id: "1".to_owned(),
            name: "read".to_owned(),
            args: Json::Object(vec![]),
        },
        ConversationItem::ToolResult { id: "1".to_owned(), output: "result".to_owned() },
    ];

    let window = bounded_context(&items, 40);
    assert_eq!(window.removed_items, 2);
    assert_eq!(window.items.len(), 4);
    assert!(matches!(window.items[1], ConversationItem::Message { role: Role::User, .. }));
    assert!(matches!(window.items[2], ConversationItem::ToolCall { .. }));
    assert!(matches!(window.items[3], ConversationItem::ToolResult { .. }));
    assert_eq!(window.estimated_chars, 6 + 3 + (1 + 4 + 2) + (1 + 6));
}

#[test]
fn always_retains_latest_unit_when_it_exceeds_limit() {
    let items = vec![message(Role::User, "oversized".repeat(20))];
    assert_eq!(bounded_context(&items, 1).items, items);
}

#[test]
fn everything_is_kept_within_the_limit() {
    let items = vec![
        message(Role::User, "a".to_owned()),
        message(Role::System, "s".to_owned()),
        message(Role::Assistant, "b".to_owned()),
    ];
    let window = bounded_context(&items, 3);
    assert_eq!(window.removed_items, 0);
    assert_eq!(window.estimated_chars, 3);
    assert_eq!(window.items[0], items[1]);
    assert_eq!(window.items[1], items[0]);
    assert_eq!(window.items[2], items[2]);
    assert_eq!(bounded_context(&items, 2).items.len(), 2);
    assert_eq!(bounded_context(&[], 0).items.len(), 0);
}

#[test]
fn sizes_are_counted_in_bytes() {
    assert_eq!(item_chars(&message(Role::User, "é".to_owned())), 2);
    let call = ConversationItem::ToolCall {
        id: "1".to_owned(),
        name: "n".to_owned(),
        args: Json::Object(vec![("a".to_owned(), Json::Bool(true))]),
    };
    assert_eq!(item_chars(&call), 1 + 1 + 10);
}

fn call(id: &str) -> ConversationItem {
    ConversationItem::ToolCall {
        id: id.to_owned(),
        name: "read".to_owned(),
        args: Json::Object(vec![]),
    }
}

fn result(id: &str) -> ConversationItem {
    ConversationItem::ToolResult { id: id.to_owned(), output: "o".to_owned() }
}

#[test]
fn messages_do_not_part_a_call_from_its_result() {
    let items = vec![
        message(Role::User, "first".to_owned()),
        call("k"),
        message(Role::User, "second".to_owned()),
        result("k"),
    ];
    let window = bounded_context(&items, 0);
    assert_eq!(window.items, items);
    let later = [items.clone(), vec![message(Role::User, "third".to_owned())]].concat();
    let window = bounded_context(&later, 5);
    assert_eq!(window.removed_items, 4);
    assert_eq!(window.items, later[4..]);
}

#[test]
fn nested_calls_keep_their_results() {
    let items = vec![
        message(Role::User, "old".to_owned()),
        message(Role::User, "a".to_owned()),
        call("outer"),
        message(Role::User, "b".to_owned()),
        call("inner"),
        message(Role::User, "c".to_owned()),
        result("inner"),
        message(Role::User, "d".to_owned()),
        result("outer"),
    ];
    let window = bounded_context(&items, 0);
    assert_eq!(window.removed_items, 1);
    assert_eq!(window.items, items[1..]);
}

#[test]
fn results_belong_to_the_nearest_call_of_their_id() {
    let items = vec![
        message(Role::User, "one".to_owned()),
        call("ollama-0"),
        result("ollama-0"),
        message(Role::User, "two".to_owned()),
        call("ollama-0"),
        result("ollama-0"),
    ];
    let window = bounded_context(&items, 0);
    assert_eq!(window.removed_items, 3);
    assert_eq!(window.items, items[3..]);
}
