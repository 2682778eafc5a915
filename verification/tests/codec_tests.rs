use todo_list::codec::save_to_text;
use todo_list::parse::load_from_text;
use todo_list::task::Task;

fn task(d: &str, done: bool) -> Task {
    Task { description: d.to_string(), done }
}

#[test]
fn save_empty_list() {
    let tasks: Vec<Task> = Vec::new();
    assert_eq!(save_to_text(&tasks), "[]");
}

#[test]
fn save_one_task_pretty() {
    let tasks = vec![task("buy milk", false)];
    let expected = "[\n  {\n    \"description\": \"buy milk\",\n    \"done\": false\n  }\n]";
    assert_eq!(save_to_text(&tasks), expected);
}

#[test]
fn save_two_tasks_pretty() {
    let tasks = vec![task("a", true), task("b", false)];
    let expected = "[\n  {\n    \"description\": \"a\",\n    \"done\": true\n  },\n  {\n    \"description\": \"b\",\n    \"done\": false\n  }\n]";
    assert_eq!(save_to_text(&tasks), expected);
}

#[test]
fn save_escapes_special_characters() {
    let tasks = vec![task("say \"hi\" \\ now\n\tok\u{1}", false)];
    let text = save_to_text(&tasks);
    assert!(text.contains("say \\\"hi\\\" \\\\ now\\n\\tok\\u0001"));
}

#[test]
fn round_trip_empty() {
    let tasks: Vec<Task> = Vec::new();
    let loaded = load_from_text(&save_to_text(&tasks)).unwrap();
    assert_eq!(loaded.len(), 0);
}

#[test]
fn round_trip_many() {
    let tasks = vec![
        task("buy milk", false),
        task("say \"hi\"", true),
        task("back\\slash and \n newline", false),
        task("unicode: \u{e9}t\u{e9} \u{1f600}", true),
        task("control \u{1}\u{8}\u{c}\r", false),
        task("", true),
    ];
    let loaded = load_from_text(&save_to_text(&tasks)).unwrap();
    assert_eq!(loaded.len(), tasks.len());
    for (a, b) in tasks.iter().zip(loaded.iter()) {
        assert_eq!(a.description, b.description);
        assert_eq!(a.done, b.done);
    }
}

#[test]
fn load_missing_or_blank_content_is_empty() {
    assert_eq!(load_from_text("").unwrap().len(), 0);
    assert_eq!(load_from_text("  \n\t \r\n").unwrap().len(), 0);
}

#[test]
fn load_blank_means_unicode_whitespace() {
    assert_eq!(load_from_text("\u{b}\u{c}").unwrap().len(), 0);
    assert_eq!(load_from_text("\u{a0}\u{2028}\u{3000}").unwrap().len(), 0);
    assert_eq!(load_from_text("\u{85}").unwrap().len(), 0);
    assert!(load_from_text("\u{a0}[]").is_err());
}

#[test]
fn load_empty_array() {
    assert_eq!(load_from_text("[]").unwrap().len(), 0);
    assert_eq!(load_from_text("  [ ]  ").unwrap().len(), 0);
}

#[test]
fn load_accepts_reversed_member_order() {
    let loaded = load_from_text("[{\"done\": true, \"description\": \"x\"}]").unwrap();
    assert_eq!(loaded.len(), 1);
    assert_eq!(loaded[0].description, "x");
    assert!(loaded[0].done);
}

#[test]
fn load_accepts_compact_and_spread_whitespace() {
    let loaded = load_from_text("[{\"description\":\"a\",\"done\":false}]").unwrap();
    assert_eq!(loaded[0].description, "a");
    let loaded2 = load_from_text(" [ \n { \"description\" : \"a\" , \"done\" : false } \n ] ")
        .unwrap();
    assert_eq!(loaded2[0].description, "a");
}

#[test]
fn load_decodes_escapes() {
    let loaded = load_from_text("[{\"description\": \"\\u0041\\n\\t\\\"\\\\\\/\", \"done\": false}]")
        .unwrap();
    assert_eq!(loaded[0].description, "A\n\t\"\\/");
}

#[test]
fn load_rejects_malformed_documents() {
    assert!(load_from_text("not json").is_err());
    assert!(load_from_text("[").is_err());
    assert!(load_from_text("[{]").is_err());
    assert!(load_from_text("{\"description\": \"a\", \"done\": false}").is_err());
    assert!(load_from_text("[{\"description\": \"a\"}]").is_err());
    assert!(load_from_text("[{\"done\": true}]").is_err());
    assert!(load_from_text("[{\"description\": \"a\", \"done\": false},]").is_err());
    assert!(load_from_text("[{\"description\": \"a\", \"done\": false}] trailing").is_err());
    assert!(load_from_text("[{\"description\": \"a\", \"done\": \"no\"}]").is_err());
    assert!(load_from_text("[{\"description\": 3, \"done\": false}]").is_err());
    assert!(load_from_text("[{\"description\": \"a\", \"done\": false, \"extra\": 1}]").is_err());
    assert!(load_from_text("[{\"description\": \"\\ud800\", \"done\": false}]").is_err());
    assert!(load_from_text("[{\"description\": \"\\udc00\", \"done\": false}]").is_err());
    assert!(load_from_text("[{\"description\": \"\\ud83d\\u0041\", \"done\": false}]").is_err());
    assert!(load_from_text("[{\"description\": \"\\ud83dxx\", \"done\": false}]").is_err());
    assert!(load_from_text("[{\"description\": \"\\q\", \"done\": false}]").is_err());
}

#[test]
fn load_decodes_surrogate_pairs() {
    let loaded = load_from_text(
        "[{\"description\": \"\\ud83d\\ude00 and \\uD834\\uDD1E\", \"done\": false}]",
    )
    .unwrap();
    assert_eq!(loaded[0].description, "\u{1f600} and \u{1d11e}");
}

#[test]
fn saved_text_is_json_for_serde() {
    let tasks = vec![task("say \"hi\" \\ now\n", true), task("plain", false)];
    let text = save_to_text(&tasks);
    let value: serde_json::Value = serde_json::from_str(&text).unwrap();
    let arr = value.as_array().unwrap();
    assert_eq!(arr.len(), 2);
    assert_eq!(arr[0]["description"].as_str().unwrap(), "say \"hi\" \\ now\n");
    assert_eq!(arr[0]["done"].as_bool().unwrap(), true);
    assert_eq!(arr[1]["description"].as_str().unwrap(), "plain");
    assert_eq!(arr[1]["done"].as_bool().unwrap(), false);
}

#[test]
fn saved_text_matches_serde_pretty_format() {
    let tasks = vec![task("buy milk", false), task("call home", true)];
    let text = save_to_text(&tasks);
    let mut arr: Vec<serde_json::Value> = Vec::new();
    for t in &tasks {
        let mut obj = serde_json::Map::new();
        obj.insert(
            "description".to_string(),
            serde_json::Value::String(t.description.clone()),
        );
        obj.insert("done".to_string(), serde_json::Value::Bool(t.done));
        arr.push(serde_json::Value::Object(obj));
    }
    let reference = serde_json::to_string_pretty(&serde_json::Value::Array(arr)).unwrap();
    assert_eq!(text, reference);
}

#[test]
fn load_parses_serde_written_text() {
    let mut obj = serde_json::Map::new();
    obj.insert(
        "description".to_string(),
        serde_json::Value::String("from the other writer".to_string()),
    );
    obj.insert("done".to_string(), serde_json::Value::Bool(true));
    let text = serde_json::to_string_pretty(&serde_json::Value::Array(vec![
        serde_json::Value::Object(obj),
    ]))
    .unwrap();
    let loaded = load_from_text(&text).unwrap();
    assert_eq!(loaded.len(), 1);
    assert_eq!(loaded[0].description, "from the other writer");
    assert!(loaded[0].done);
}
