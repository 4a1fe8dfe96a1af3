use commit_miner::json::{hash, line_json, push_json_string};
use commit_miner::model::DiffLine;
use commit_miner::terminal::Terminal;
use serde_json::Value;

#[test]
fn digests_are_sha256_in_hex() {
    assert_eq!(hash(b"abc"), "ba7816bf8f01cfea414140de5dae2223b00361a396177a9cb410ff61f20015ad");
    assert_eq!(hash(b""), "e3b0c44298fc1c149afbf4c8996fb92427ae41e4649b934ca495991b7852b855");
}

#[test]
fn json_text_matches_serde_json() {
    for s in ["plain", "quote\" back\\slash", "tab\tnl\ncr\r", "\u{1}\u{1f}\u{7f}", "é🙂\u{2028}", "</script>"] {
        let mut out = vec![];
        push_json_string(&mut out, s);
        assert_eq!(String::from_utf8(out).unwrap(), serde_json::to_string(s).unwrap(), "{s:?}");
    }
}

#[test]
fn diff_lines_serialise_as_serde_json_writes_them() {
    for (kind, text, old, new) in [("added", "a\"b", None, Some(3usize)), ("context", "x", Some(1), Some(2)), ("meta", "", None, None)] {
        let l = DiffLine { kind: kind.to_string(), text: text.to_string(), old_line: old, new_line: new };
        let mut m = serde_json::Map::new();
        m.insert("kind".to_string(), Value::from(kind));
        m.insert("text".to_string(), Value::from(text));
        m.insert("oldLine".to_string(), old.map(Value::from).unwrap_or(Value::Null));
        m.insert("newLine".to_string(), new.map(Value::from).unwrap_or(Value::Null));
        let bytes = line_json(&l);
        let parsed: Value = serde_json::from_slice(&bytes).unwrap();
        assert_eq!(parsed, Value::Object(m));
        let number = |o: Option<usize>| o.map(|n| n.to_string()).unwrap_or_else(|| "null".to_string());
        let expected = format!(
            "{{\"kind\":{},\"text\":{},\"oldLine\":{},\"newLine\":{}}}",
            serde_json::to_string(kind).unwrap(),
            serde_json::to_string(text).unwrap(),
            number(old),
            number(new)
        );
        assert_eq!(String::from_utf8(bytes).unwrap(), expected);
    }
}

#[test]
fn styles_match_console() {
    let t = Terminal { color: true, width: 80 };
    assert_eq!(
        t.ink("hi", 141, true),
        console::Style::new().color256(141).force_styling(true).bold().apply_to("hi").to_string()
    );
    assert_eq!(t.ink("plain", 252, false), console::Style::new().force_styling(true).apply_to("plain").to_string());
    assert_eq!(
        t.ink("a\u{1b}b\u{202e}", 244, false),
        console::Style::new().color256(244).force_styling(true).apply_to("ab").to_string()
    );
    let off = Terminal { color: false, width: 80 };
    assert_eq!(off.ink("hi", 141, true), "hi");
}
