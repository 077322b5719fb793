use pipemeeter_core::defaults::{
    ask, claim, configured, held, parse_name, restore, snapshot, Saved, SINK_KEY, SOURCE_KEY,
};

/// A real dump, in the order pw-metadata prints it. Asking for a key
/// does not narrow the output, so the plain sink line comes first
/// whatever was requested.
const DUMP: &str = "Found \"default\" metadata 51\n\
update: id:0 key:'default.audio.sink' value:'{\"name\":\"wivrn.sink\"}' type:'Spa:String:JSON'\n\
update: id:0 key:'default.audio.source' value:'{\"name\":\"wivrn.source\"}' type:'Spa:String:JSON'\n\
update: id:0 key:'default.configured.audio.sink' value:'{ \"name\": \"pipemeter_vaio\" }' type:'Spa:String:JSON'\n\
update: id:0 key:'default.configured.audio.source' value:'{ \"name\": \"pipemeter_b1\" }' type:'Spa:String:JSON'\n";

#[test]
fn each_key_reads_its_own_value() {
    assert_eq!(
        parse_name(DUMP, "default.configured.audio.sink").as_deref(),
        Some("pipemeter_vaio")
    );
    assert_eq!(
        parse_name(DUMP, "default.configured.audio.source").as_deref(),
        Some("pipemeter_b1")
    );
}

/// The bug this guards: taking the first name in the dump answers
/// every question with `default.audio.sink`.
#[test]
fn the_source_is_not_answered_with_the_sink() {
    let source = parse_name(DUMP, "default.configured.audio.source");
    assert_ne!(source.as_deref(), Some("wivrn.sink"));
}

#[test]
fn nothing_configured_reads_as_nothing() {
    assert_eq!(parse_name("", "any"), None);
    assert_eq!(parse_name(DUMP, "default.configured.video.source"), None);
}

#[test]
fn a_line_without_a_whole_name_reads_as_nothing() {
    assert_eq!(parse_name("key:'k' value:'null'", "k"), None);
    assert_eq!(parse_name("key:'k' {\"name\"", "k"), None);
    assert_eq!(parse_name("key:'k' {\"name\":\"open", "k"), None);
    assert_eq!(parse_name("key:'k' {\"name\":\"\"}", "k"), None);
    assert_eq!(parse_name("key:'k' {\"name\":\"n\"}", "k").as_deref(), Some("n"));
}

#[test]
fn what_was_there_is_put_back() {
    let saved = snapshot(Some(DUMP), None);
    assert_eq!(
        saved,
        Saved {
            sink: Some("pipemeter_vaio".to_owned()),
            source: None
        }
    );
    let (sink, source) = restore(&saved);
    assert_eq!(sink, pipemeeter_core::defaults::set(SINK_KEY, Some("pipemeter_vaio")));
    assert_eq!(source, pipemeeter_core::defaults::set(SOURCE_KEY, None));
    assert_eq!(Saved::default(), snapshot(None, None));
}

#[test]
fn a_default_is_written_with_its_subject() {
    assert_eq!(
        pipemeeter_core::defaults::set("k", Some("n")),
        vec!["-n", "default", "0", "k", "{ \"name\": \"n\" }"]
    );
    assert_eq!(pipemeeter_core::defaults::set("k", None), vec!["-n", "default", "0", "k", "null"]);
    assert_eq!(ask("k"), vec!["-n", "default", "k"]);
    let (sink, source) = claim("a", "b");
    assert_eq!(sink[3], "default.configured.audio.sink");
    assert_eq!(source[3], "default.configured.audio.source");
    assert_eq!(source[4], "{ \"name\": \"b\" }");
}

#[test]
fn a_claim_is_held_while_both_are_ours() {
    assert!(held(Some(DUMP), Some(DUMP), "pipemeter_vaio", "pipemeter_b1"));
    assert!(!held(Some(DUMP), Some(DUMP), "pipemeter_vaio", "other"));
    assert!(!held(None, Some(DUMP), "pipemeter_vaio", "pipemeter_b1"));
    assert_eq!(configured(None, SINK_KEY), None);
}

#[test]
fn what_is_written_reads_back() {
    let args = pipemeeter_core::defaults::set(SINK_KEY, Some("pipemeter_aux"));
    let report = format!("update: id:0 key:'{}' value:'{}' type:'x'\n", args[3], args[4]);
    assert_eq!(parse_name(&report, SINK_KEY).as_deref(), Some("pipemeter_aux"));
}

/// A report of what the keys were set to by the given runs.
fn report_of(runs: &[Vec<String>]) -> String {
    let mut text = "Found \"default\" metadata 51\n".to_owned();
    for run in runs {
        text.push_str(&format!(
            "update: id:0 key:'{}' value:'{}' type:'Spa:String:JSON'\n",
            run[3], run[4]
        ));
    }
    text
}

#[test]
fn restoring_gives_back_both_defaults() {
    let only_sink = "update: id:0 key:'default.configured.audio.sink' value:'{ \"name\": \"headset\" }' type:'x'\n";
    let saved = snapshot(Some(only_sink), Some(only_sink));
    assert_eq!(saved.sink.as_deref(), Some("headset"));
    assert_eq!(saved.source, None);
    let (sink, source) = restore(&saved.clone());
    assert_eq!((sink[3].as_str(), source[3].as_str()), (SINK_KEY, SOURCE_KEY));
    assert_eq!(source[4], "null");
    let after = report_of(&[sink, source]);
    assert_eq!(snapshot(Some(&after), Some(&after)), saved);
}
