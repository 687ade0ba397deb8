use codehelm::json::parse;
use codehelm::protocol::{action_texts, parse_action, AgentAction};

fn decode(text: &str) -> Result<AgentAction, String> {
    let value = parse(text)?;
    match value.at("type").as_str() {
        Some("final") => Ok(AgentAction::Final {
            message: value.at("message").as_str().ok_or("no message")?.to_owned(),
        }),
        _ => Err("unknown action".to_owned()),
    }
}

fn action(input: &str) -> Result<AgentAction, String> {
    let texts = action_texts(input);
    parse_action(decode(&texts.direct), texts.fenced.map(|text| decode(&text)))
}

#[test]
fn parses_direct_action() {
    let action = action(r#"{"type":"final","message":"done"}"#).unwrap();
    assert_eq!(action, AgentAction::Final { message: "done".to_owned() });
}

#[test]
fn parses_fenced_action() {
    let action = action("```json\n{\"type\":\"final\",\"message\":\"done\"}\n```").unwrap();
    assert_eq!(action, AgentAction::Final { message: "done".to_owned() });
}

#[test]
fn texts_are_cut_out_of_an_answer() {
    let texts = action_texts("  Here:\n```\n {} \n```\nbye ");
    assert_eq!(texts.direct, "Here:\n```\n {} \n```\nbye");
    assert_eq!(texts.fenced, Some("{}".to_owned()));
    assert_eq!(action_texts("``` json {}").fenced, None);
    assert_eq!(action_texts("```json```").fenced, Some(String::new()));
    assert_eq!(action_texts("none").fenced, None);
}

#[test]
fn the_whole_answer_comes_first() {
    assert_eq!(parse_action::<u8, u8>(Ok(1), Some(Ok(2))), Ok(1));
    assert_eq!(parse_action::<u8, u8>(Err(1), Some(Ok(2))), Ok(2));
    assert_eq!(parse_action::<u8, u8>(Err(1), Some(Err(2))), Err(2));
    assert_eq!(parse_action::<u8, u8>(Err(1), None), Err(1));
}
