use phone_agent::splitter::{parse_response, split_fragments, StreamSplitter};

fn feed_all(parts: &[&str]) -> (String, String, String) {
    let mut sp = StreamSplitter::new();
    let mut shown = String::new();
    for p in parts {
        shown.push_str(&sp.feed(p));
    }
    let r = sp.finish();
    (shown, r.thinking, r.action)
}

#[test]
fn whole_and_per_char_agree() {
    let text = "Let me look.\nThe button is there. do(action=\"Tap\", element=[1,2])";
    let whole = feed_all(&[text]);
    let chars: Vec<String> = text.chars().map(|c| c.to_string()).collect();
    let refs: Vec<&str> = chars.iter().map(|s| s.as_str()).collect();
    let each = feed_all(&refs);
    assert_eq!(whole, each);
    assert_eq!(whole.1, "Let me look.\nThe button is there.");
    assert_eq!(whole.2, "do(action=\"Tap\", element=[1,2])");
}

#[test]
fn marker_split_at_every_boundary() {
    let text = "thinking textdo(action=\"Tap\")";
    let n = text.len();
    for i in 0..=n {
        for j in i..=n {
            let parts = [&text[..i], &text[i..j], &text[j..]];
            let (shown, thinking, action) = feed_all(&parts);
            assert_eq!(shown, "thinking text");
            assert_eq!(thinking, "thinking text");
            assert_eq!(action, "do(action=\"Tap\")");
        }
    }
}

#[test]
fn first_marker_wins() {
    let r = parse_response("a do(action=\"Type\", text=\"finish(message=x\") b");
    assert_eq!(r.thinking, "a");
    assert_eq!(r.action, "do(action=\"Type\", text=\"finish(message=x\") b");
}

#[test]
fn answer_envelope() {
    let r = parse_response("<think> why </think><answer> do something </answer>");
    assert_eq!(r.thinking, "why");
    assert_eq!(r.action, "do something");
}

#[test]
fn no_marker_is_all_action() {
    let r = parse_response("just text");
    assert_eq!(r.thinking, "");
    assert_eq!(r.action, "just text");
}

#[test]
fn held_partial_marker_and_empty_fragments() {
    let mut sp = StreamSplitter::new();
    assert_eq!(sp.feed("abc fin"), "");
    assert_eq!(sp.feed(""), "");
    assert_eq!(sp.feed("al"), "abc final");
    assert_eq!(sp.feed(" finish(message=\"ok\")"), " ");
    assert_eq!(sp.feed("more"), "");
    assert_eq!(sp.raw_text(), "abc final finish(message=\"ok\")more");
    let r = sp.finish();
    assert_eq!(r.thinking, "abc final");
    assert_eq!(r.action, "finish(message=\"ok\")more");
}

#[test]
fn multibyte_fragments() {
    let (shown, thinking, action) = feed_all(&["思考", "中 do(act", "ion=\"Back\")"]);
    assert_eq!(shown, "思考中 ");
    assert_eq!(thinking, "思考中");
    assert_eq!(action, "do(action=\"Back\")");
}

#[test]
fn reasoning_released_without_marker() {
    let mut sp = StreamSplitter::new();
    assert_eq!(sp.feed("plain "), "plain ");
    assert_eq!(sp.feed("words"), "words");
    assert_eq!(sp.feed(" d"), "");
    assert_eq!(sp.feed("x"), " dx");
}

#[test]
fn fragments_split_alike() {
    let text = "look first do(action=\"Back\")";
    let whole = split_fragments(&vec![text.to_string()]);
    let chars: Vec<String> = text.chars().map(|c| c.to_string()).collect();
    let each = split_fragments(&chars);
    assert_eq!(whole.thinking, each.thinking);
    assert_eq!(whole.action, each.action);
    assert_eq!(each.thinking, "look first");
    assert_eq!(each.action, "do(action=\"Back\")");
}
