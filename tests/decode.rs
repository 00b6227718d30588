use browser_agent::{decode_action, Action};

#[test]
fn decodes_click() {
    assert_eq!(decode_action("CLICK 3"), Some(Action::Click(3)));
}

#[test]
fn decodes_type() {
    assert_eq!(decode_action("TYPE 5 \"hello\""), Some(Action::Type(5, "hello".to_string())));
}

#[test]
fn decodes_goal() {
    assert_eq!(decode_action("GOAL \"find pricing\""), Some(Action::Goal("find pricing".to_string())));
}

#[test]
fn round_trip_of_built_commands() {
    for id in [0u32, 7, 42, 4294967295] {
        assert_eq!(decode_action(&format!("CLICK {id}")), Some(Action::Click(id)));
        for text in ["", "hello world", "say \"hi\"", "ünïcödé ✓"] {
            assert_eq!(
                decode_action(&format!("TYPE {id} \"{text}\"")),
                Some(Action::Type(id, text.to_string()))
            );
            assert_eq!(decode_action(&format!("GOAL \"{text}\"")), Some(Action::Goal(text.to_string())));
        }
    }
}

#[test]
fn surrounding_white_space_is_allowed() {
    assert_eq!(decode_action("  \n\tCLICK 12 \r\n"), Some(Action::Click(12)));
    assert_eq!(decode_action("\nGOAL \" spaced \"\n"), Some(Action::Goal(" spaced ".to_string())));
}

#[test]
fn id_too_large_is_refused() {
    assert_eq!(decode_action("CLICK 4294967296"), None);
    assert_eq!(decode_action("CLICK 99999999999999999999999"), None);
}

#[test]
fn leading_zeros_are_read() {
    assert_eq!(decode_action("CLICK 007"), Some(Action::Click(7)));
}

#[test]
fn malformed_replies_are_refused() {
    for text in [
        "",
        "   ",
        "CLICK",
        "CLICK ",
        "CLICK x",
        "CLICK -1",
        "CLICK 3 extra",
        "CLICK  3",
        "click 3",
        "TYPE 5 hello",
        "TYPE 5\"hello\"",
        "TYPE \"hello\"",
        "TYPE 5 \"hello",
        "TYPE 5 \"",
        "GOAL find",
        "GOAL \"",
        "GOAL\"x\"",
        "Sure! CLICK 3",
    ] {
        assert_eq!(decode_action(text), None, "{text:?}");
    }
}

#[test]
fn quotes_inside_text_are_kept() {
    assert_eq!(decode_action("GOAL \"\"\""), Some(Action::Goal("\"".to_string())));
    assert_eq!(decode_action("GOAL \"\""), Some(Action::Goal(String::new())));
}
