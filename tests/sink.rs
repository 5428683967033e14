use kafka_layer::custom_layer::CustomLayer;
use kafka_layer::envelope::{assemble_envelope, render_envelope, value_json, Level};
use kafka_layer::fields::{compare_keys, FieldMap, FieldValue};
use kafka_layer::publish::{BrokerRecord, RequiredAcks};
use kafka_layer::topic::topic_name;
use serde_json::Value;

fn layer() -> CustomLayer {
    CustomLayer::new("broker:9092")
}

fn json_of(text: &str) -> Value {
    serde_json::from_str(text).expect("the envelope is valid JSON")
}

#[test]
fn topic_removes_underscores_and_double_colons() {
    let l = layer();
    assert_eq!(l.to_kafka_topic_name("tracing::blog_post"), "tracing-blogpost");
    assert_eq!(l.to_kafka_topic_name("a_b_c"), "abc");
    assert_eq!(l.to_kafka_topic_name(""), "");
}

#[test]
fn topic_has_no_underscore_or_double_colon() {
    for s in ["a::_:b", ":::", "::::", "_::_", "x:_:y", "a__b::::c_:"] {
        let t = topic_name(s);
        assert!(!t.contains('_'), "{t}");
        assert!(!t.contains("::"), "{t}");
    }
    assert_eq!(topic_name(":::"), "-:");
    assert_eq!(topic_name(":_:"), "-");
}

#[test]
fn topic_of_clean_target_is_itself() {
    for s in ["app-db", "plain", "a:b-c", "émoji-ü"] {
        assert_eq!(topic_name(s), s);
    }
    let once = topic_name("my_app::db_layer::x");
    assert_eq!(topic_name(&once), once);
}

#[test]
fn fields_render_in_name_order() {
    let mut f = FieldMap::new();
    f.record_i64("answer", 42);
    f.record_bool("a_bool", true);
    let out = render_envelope("t", "n", Level::Info, &f);
    assert_eq!(
        out,
        "{\n  \"target\": \"t\",\n  \"name\": \"n\",\n  \"level\": \"INFO\",\n  \"fields\": {\n    \"a_bool\": true,\n    \"answer\": 42\n  }\n}"
    );
    let mut g = FieldMap::new();
    g.record_bool("a_bool", true);
    g.record_i64("answer", 42);
    assert_eq!(render_envelope("t", "n", Level::Info, &g), out);
}

#[test]
fn fields_object_matches_serde_json_layout() {
    let mut f = FieldMap::new();
    f.record_str("msg", "say \"hi\"\n");
    f.record_u64("big", u64::MAX);
    f.record_i64("neg", i64::MIN);
    f.record_bool("off", false);
    let out = render_envelope("t", "n", Level::Debug, &f);
    let mut m = serde_json::Map::new();
    m.insert("msg".to_string(), Value::from("say \"hi\"\n"));
    m.insert("big".to_string(), Value::from(u64::MAX));
    m.insert("neg".to_string(), Value::from(i64::MIN));
    m.insert("off".to_string(), Value::from(false));
    let expected = serde_json::to_string_pretty(&Value::Object(m)).unwrap();
    let indented = expected.replace('\n', "\n  ");
    assert!(out.contains(&format!("\"fields\": {}\n}}", indented)), "{out}");
}

#[test]
fn duplicate_field_name_keeps_last_value() {
    let mut f = FieldMap::new();
    f.record_i64("k", 1);
    f.record_str("k", "two");
    assert_eq!(f.len(), 1);
    let (name, value) = f.entry(0);
    assert_eq!(name, "k");
    assert!(matches!(value, FieldValue::Str(s) if s == "two"));
}

#[test]
fn empty_fields_render_as_empty_object() {
    let f = FieldMap::new();
    let out = render_envelope("app", "ev", Level::Error, &f);
    assert_eq!(
        out,
        "{\n  \"target\": \"app\",\n  \"name\": \"ev\",\n  \"level\": \"ERROR\",\n  \"fields\": {}\n}"
    );
}

#[test]
fn envelope_has_four_keys_and_textual_level() {
    let mut f = FieldMap::new();
    f.record_float("ratio", "0.5");
    for (level, text) in [
        (Level::Trace, "TRACE"),
        (Level::Debug, "DEBUG"),
        (Level::Info, "INFO"),
        (Level::Warn, "WARN"),
        (Level::Error, "ERROR"),
    ] {
        let v = json_of(&render_envelope("a::b", "e", level, &f));
        let obj = v.as_object().unwrap();
        let keys: Vec<&String> = obj.keys().collect();
        assert_eq!(keys.len(), 4);
        for k in ["target", "name", "level", "fields"] {
            assert!(obj.contains_key(k));
        }
        assert_eq!(obj["level"], Value::from(text));
    }
}

#[test]
fn rendered_envelope_parses_back_to_the_same_fields() {
    let mut f = FieldMap::new();
    f.record_float("ratio", "1.5");
    f.record_i64("delta", -7);
    f.record_u64("count", 3);
    f.record_bool("ok", true);
    f.record_str("who", "ann");
    f.record_error("err", "disk full");
    f.record_debug("dbg", "Point { x: 1 }");
    let v = json_of(&render_envelope("app::db", "ev", Level::Warn, &f));
    let fields = v["fields"].as_object().unwrap();
    let keys: Vec<&str> = fields.keys().map(|k| k.as_str()).collect();
    assert_eq!(keys, vec!["count", "dbg", "delta", "err", "ok", "ratio", "who"]);
    assert_eq!(fields["ratio"].as_f64(), Some(1.5));
    assert_eq!(fields["delta"].as_i64(), Some(-7));
    assert_eq!(fields["count"].as_u64(), Some(3));
    assert_eq!(fields["ok"], Value::Bool(true));
    assert_eq!(fields["who"], Value::from("ann"));
    assert_eq!(fields["err"], Value::from("disk full"));
    assert_eq!(fields["dbg"], Value::from("Point { x: 1 }"));
    assert_eq!(v["target"], Value::from("app::db"));
    assert_eq!(v["name"], Value::from("ev"));
}

#[test]
fn strings_are_quoted_and_escaped() {
    let f = FieldMap::new();
    let out = render_envelope("a\"b\\c", "line\nbreak", Level::Info, &f);
    assert!(out.contains("\"target\": \"a\\\"b\\\\c\","), "{out}");
    assert!(out.contains("\"name\": \"line\\nbreak\","), "{out}");
    let v = json_of(&out);
    assert_eq!(v["target"], Value::from("a\"b\\c"));
    assert_eq!(v["name"], Value::from("line\nbreak"));
}

#[test]
fn value_texts() {
    assert_eq!(value_json(&FieldValue::Int(0)), "0");
    assert_eq!(value_json(&FieldValue::Int(-120)), "-120");
    assert_eq!(value_json(&FieldValue::Int(i64::MIN)), "-9223372036854775808");
    assert_eq!(value_json(&FieldValue::UInt(u64::MAX)), "18446744073709551615");
    assert_eq!(value_json(&FieldValue::UInt(1090)), "1090");
    assert_eq!(value_json(&FieldValue::Bool(true)), "true");
    assert_eq!(value_json(&FieldValue::Bool(false)), "false");
    assert_eq!(value_json(&FieldValue::Float("2.25".to_string())), "2.25");
    assert_eq!(value_json(&FieldValue::Str("x\ty".to_string())), "\"x\\ty\"");
    assert_eq!(value_json(&FieldValue::ErrorText("boom".to_string())), "\"boom\"");
    assert_eq!(value_json(&FieldValue::DebugText("Some(3)".to_string())), "\"Some(3)\"");
}

#[test]
fn assemble_lays_out_given_pieces() {
    let members = vec![
        ("\"a\"".to_string(), "1".to_string()),
        ("\"b\"".to_string(), "\"x\"".to_string()),
    ];
    let out = assemble_envelope("\"t\"", "\"n\"", Level::Trace, &members);
    assert_eq!(
        out,
        "{\n  \"target\": \"t\",\n  \"name\": \"n\",\n  \"level\": \"TRACE\",\n  \"fields\": {\n    \"a\": 1,\n    \"b\": \"x\"\n  }\n}"
    );
    let none: Vec<(String, String)> = Vec::new();
    assert_eq!(
        assemble_envelope("T", "N", Level::Warn, &none),
        "{\n  \"target\": T,\n  \"name\": N,\n  \"level\": \"WARN\",\n  \"fields\": {}\n}"
    );
}

#[test]
fn key_order_is_lexicographic() {
    assert_eq!(compare_keys("a_bool", "answer"), -1);
    assert_eq!(compare_keys("answer", "a_bool"), 1);
    assert_eq!(compare_keys("same", "same"), 0);
    assert_eq!(compare_keys("ab", "abc"), -1);
    assert_eq!(compare_keys("", ""), 0);
    assert_eq!(compare_keys("Z", "a"), -1);
    assert_eq!(compare_keys("z", "é"), -1);
}

#[test]
fn record_has_topic_level_key_payload_and_no_partition() {
    let r = BrokerRecord::new("T", Level::Warn, "P");
    assert_eq!(r.topic, "T");
    assert_eq!(r.key, "WARN");
    assert_eq!(r.partition, -1);
    assert_eq!(r.value, b"P".to_vec());
    let u = BrokerRecord::new("t", Level::Info, "ü");
    assert_eq!(u.value, "ü".as_bytes().to_vec());
}

#[test]
fn producer_config_uses_broker_one_second_and_one_ack() {
    let l = layer();
    assert_eq!(l.broker_address(), "broker:9092");
    let c = l.producer_config();
    assert_eq!(c.hosts, vec!["broker:9092".to_string()]);
    assert_eq!(c.ack_timeout_secs, 1);
    assert_eq!(c.required_acks, RequiredAcks::One);
}

#[test]
fn event_record_derives_topic_from_target() {
    let r = layer().event_record("tracing::blog_post", Level::Error, "{}");
    assert_eq!(r.topic, "tracing-blogpost");
    assert_eq!(r.key, "ERROR");
    assert_eq!(r.partition, -1);
    assert_eq!(r.value, b"{}".to_vec());
}

#[test]
fn scenario_app_db_info_event() {
    let mut f = FieldMap::new();
    f.record_i64("rows", 10);
    f.record_bool("ok", true);
    let p = layer().prepare_event("app::db", "db event", Level::Info, &f);
    assert_eq!(p.record.topic, "app-db");
    assert_eq!(p.record.key, "INFO");
    assert_eq!(p.record.partition, -1);
    assert_eq!(p.record.value, p.json.as_bytes().to_vec());
    let expected: Value = serde_json::from_str(
        "{\"target\":\"app::db\",\"name\":\"db event\",\"level\":\"INFO\",\"fields\":{\"ok\":true,\"rows\":10}}",
    )
    .unwrap();
    assert_eq!(json_of(&p.json), expected);
    assert!(p.json.contains("\"fields\": {\n    \"ok\": true,\n    \"rows\": 10\n  }"));
}

#[test]
fn producer_config_follows_given_settings() {
    let l = CustomLayer::with_settings("k1:9093", 5, RequiredAcks::All);
    let c = l.producer_config();
    assert_eq!(c.hosts, vec!["k1:9093".to_string()]);
    assert_eq!(c.ack_timeout_secs, 5);
    assert_eq!(c.required_acks, RequiredAcks::All);
    let n = CustomLayer::with_settings("k2:1", 0, RequiredAcks::NoAck).producer_config();
    assert_eq!(n.required_acks, RequiredAcks::NoAck);
    assert_eq!(n.ack_timeout_secs, 0);
}
