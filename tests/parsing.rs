use phone_agent::parser::parse_action;
use phone_agent::record::{do_action, finish_action, RecordKind};
use phone_agent::value::{ActionValue, ListItem};

fn text(v: Option<&ActionValue>) -> Option<String> {
    match v {
        Some(ActionValue::Text(s)) => Some(s.clone()),
        _ => None,
    }
}

#[test]
fn test_parse_action_tap() {
    let result = parse_action("do(action=\"Tap\", element=[500, 300])").unwrap();
    assert_eq!(result.discriminator(), "do");
    assert_eq!(result.get_str("action"), Some("Tap"));
}

#[test]
fn test_parse_action_type() {
    let result = parse_action("do(action=\"Type\", text=\"Hello World\")").unwrap();
    assert_eq!(result.discriminator(), "do");
    assert_eq!(result.get_str("action"), Some("Type"));
    assert_eq!(result.get_str("text"), Some("Hello World"));
}

#[test]
fn test_parse_action_finish() {
    let result = parse_action("finish(message=\"Task completed\")").unwrap();
    assert_eq!(result.discriminator(), "finish");
    assert_eq!(result.get_str("message"), Some("Task completed"));
}

#[test]
fn test_parse_action_swipe() {
    let result = parse_action("do(action=\"Swipe\", start=[100, 500], end=[100, 200])").unwrap();
    assert_eq!(result.discriminator(), "do");
    assert_eq!(result.get_str("action"), Some("Swipe"));
}

#[test]
fn tap_element_kept_as_integers() {
    for (x, y) in [(0i64, 0i64), (500, 300), (1000, 1000), (7, 999)] {
        let call = format!("do(action=\"Tap\", element=[{},{}])", x, y);
        let r = parse_action(&call).unwrap();
        assert_eq!(r.kind(), RecordKind::Do);
        assert_eq!(r.get_str("action"), Some("Tap"));
        assert_eq!(
            r.get("element"),
            Some(&ActionValue::List(vec![ListItem::Int(x), ListItem::Int(y)]))
        );
    }
}

#[test]
fn swipe_coordinates_parsed() {
    let r = parse_action("do(action=\"Swipe\", start=[100,500], end=[100,200])").unwrap();
    assert_eq!(r.kind(), RecordKind::Do);
    assert_eq!(r.get_str("action"), Some("Swipe"));
    assert_eq!(
        r.get("start"),
        Some(&ActionValue::List(vec![ListItem::Int(100), ListItem::Int(500)]))
    );
    assert_eq!(
        r.get("end"),
        Some(&ActionValue::List(vec![ListItem::Int(100), ListItem::Int(200)]))
    );
}

#[test]
fn unterminated_call_is_an_error() {
    assert_eq!(parse_action("do(action="), Err("Invalid do() format: do(action=".to_string()));
    assert_eq!(
        parse_action("finish(message=\"x\""),
        Err("Invalid finish() format: finish(message=\"x\"".to_string())
    );
}

#[test]
fn unknown_call_names_the_input() {
    assert_eq!(
        parse_action("  click(here)  "),
        Err("Failed to parse action: click(here)".to_string())
    );
}

#[test]
fn typed_text_keeps_commas_and_quotes() {
    let r = parse_action("do(action=\"Type_Name\", text=\"a, \"b\" [c]\")").unwrap();
    assert_eq!(r.get_str("action"), Some("Type"));
    assert_eq!(r.get_str("text"), Some("a, \"b\" [c]"));
}

#[test]
fn scalar_values_are_typed() {
    let r = parse_action(
        "do(action=\"Wait\", n=42, neg=-7, f=2.5, e=1e3, b=True, c=false, w=hello world, q=\"x\\ny\")",
    )
    .unwrap();
    assert_eq!(r.get("n"), Some(&ActionValue::Int(42)));
    assert_eq!(r.get("neg"), Some(&ActionValue::Int(-7)));
    assert_eq!(r.get("f"), Some(&ActionValue::Decimal("2.5".to_string())));
    assert_eq!(r.get("e"), Some(&ActionValue::Decimal("1e3".to_string())));
    assert_eq!(r.get("b"), Some(&ActionValue::Bool(true)));
    assert_eq!(r.get("c"), Some(&ActionValue::Bool(false)));
    assert_eq!(text(r.get("w")), Some("hello world".to_string()));
    assert_eq!(text(r.get("q")), Some("x\ny".to_string()));
}

#[test]
fn integer_limits() {
    let r = parse_action("do(a=9223372036854775807, b=-9223372036854775808, c=9223372036854775808)")
        .unwrap();
    assert_eq!(r.get("a"), Some(&ActionValue::Int(i64::MAX)));
    assert_eq!(r.get("b"), Some(&ActionValue::Int(i64::MIN)));
    assert_eq!(r.get("c"), Some(&ActionValue::Decimal("9223372036854775808".to_string())));
}

#[test]
fn list_items_typed_in_order() {
    let r = parse_action("do(action=\"X\", v=[1, 2.5, \"a\", b])").unwrap();
    assert_eq!(
        r.get("v"),
        Some(&ActionValue::List(vec![
            ListItem::Int(1),
            ListItem::Decimal("2.5".to_string()),
            ListItem::Text("a".to_string()),
            ListItem::Text("b".to_string()),
        ]))
    );
}

#[test]
fn later_key_wins() {
    let r = parse_action("do(action=\"Tap\", action=\"Back\")").unwrap();
    assert_eq!(r.get_str("action"), Some("Back"));
}

#[test]
fn empty_call_has_no_fields() {
    let r = parse_action("do()").unwrap();
    assert_eq!(r.kind(), RecordKind::Do);
    assert!(r.fields().is_empty());
}

#[test]
fn finish_reads_arguments() {
    let r = parse_action("  finish(message=\"a\\nb\", k=1)  ").unwrap();
    assert_eq!(r.discriminator(), "finish");
    assert_eq!(r.get_str("message"), Some("a\nb"));
    assert_eq!(r.get("k"), Some(&ActionValue::Int(1)));
    assert_eq!(r.fields().len(), 2);
}

#[test]
fn typing_call_must_end_the_text() {
    assert_eq!(
        parse_action("do(action=\"Type\", text=\"x\") y"),
        Err("Invalid do() format: do(action=\"Type\", text=\"x\") y".to_string())
    );
    let r = parse_action("do(action=\"Type\", text=\"a\") b\")").unwrap();
    assert_eq!(r.get_str("text"), Some("a\") b"));
}

#[test]
fn repeated_key_kept_once() {
    let r = parse_action("do(action=\"Tap\", n=1, action=\"Back\")").unwrap();
    assert_eq!(r.fields().len(), 2);
    assert_eq!(r.fields()[0].key, "action");
    assert_eq!(r.get_str("action"), Some("Back"));
    let mut d = do_action("Home");
    d.insert("action".to_string(), ActionValue::Text("Back".to_string()));
    assert_eq!(d.fields().len(), 1);
    assert_eq!(d.get_str("action"), Some("Back"));
    assert_eq!(d.clone(), d);
}

#[test]
fn helpers_build_records() {
    let d = do_action("Home");
    assert_eq!(d.discriminator(), "do");
    assert_eq!(d.get_str("action"), Some("Home"));
    let f = finish_action(Some("bye"));
    assert_eq!(f.discriminator(), "finish");
    assert_eq!(f.get_str("message"), Some("bye"));
    assert!(finish_action(None).fields().is_empty());
}

#[test]
fn reparse_of_fields_gives_same_record() {
    let texts = [
        "do(action=\"Swipe\", start=[100,500], end=[100,200])",
        "do(action=\"Tap\", element=[5, 6], message=\"pay now\")",
        "do(action=\"Wait\", duration=\"2 seconds\", n=3, f=1.5, b=true)",
    ];
    for t in texts {
        let r = parse_action(t).unwrap();
        let again = parse_action(&r.to_call_text()).unwrap();
        assert_eq!(again, r);
    }
}
