use tord::format::{human_age, human_bytes, render, render_table, scalar, OutputFormat};
use tord::json::{Json, JsonNumber};

fn num(text: &str, as_u64: Option<u64>) -> Json {
    Json::Number(JsonNumber { text: text.to_string(), as_u64 })
}

/// The byte-column rendering done in `f64` arithmetic.
fn float_human_bytes(n: u64) -> String {
    const UNIT: [&str; 5] = ["B", "K", "M", "G", "T"];
    let mut value = n as f64;
    let mut unit = 0;
    while value >= 1024.0 && unit < UNIT.len() - 1 {
        value /= 1024.0;
        unit += 1;
    }
    if unit == 0 {
        format!("{n}B")
    } else {
        format!("{value:.1}{}", UNIT[unit])
    }
}

#[test]
fn human_bytes_examples() {
    assert_eq!(human_bytes(0), "0B");
    assert_eq!(human_bytes(512), "512B");
    assert_eq!(human_bytes(1023), "1023B");
    assert_eq!(human_bytes(1024), "1.0K");
    assert_eq!(human_bytes(1536), "1.5K");
    assert_eq!(human_bytes(1024 * 1024 - 1), "1024.0K");
    assert_eq!(human_bytes(5 * 1024 * 1024 * 1024), "5.0G");
    assert_eq!(human_bytes(u64::MAX), "16777216.0T");
}

#[test]
fn human_bytes_rounds_ties_to_even() {
    // 1.25K and 1.75K are exact ties at one decimal.
    assert_eq!(human_bytes(1280), float_human_bytes(1280));
    assert_eq!(human_bytes(1792), float_human_bytes(1792));
    assert_eq!(human_bytes(1280), "1.2K");
    assert_eq!(human_bytes(1792), "1.8K");
}

#[test]
fn human_bytes_agrees_with_float_rendering() {
    let mut n: u64 = 0;
    while n < 300_000 {
        assert_eq!(human_bytes(n), float_human_bytes(n), "{n}");
        n += 1;
    }
    let mut state: u64 = 12345;
    for _ in 0..200_000 {
        state = state.wrapping_mul(6364136223846793005).wrapping_add(1442695040888963407);
        let shift = (state >> 58) as u32;
        let n = state >> shift;
        assert_eq!(human_bytes(n), float_human_bytes(n), "{n}");
        let near = (1u64 << 53).wrapping_add(state % 4096);
        assert_eq!(human_bytes(near), float_human_bytes(near), "{near}");
        let top = u64::MAX - (state % 100_000);
        assert_eq!(human_bytes(top), float_human_bytes(top), "{top}");
    }
    for k in 0..64u32 {
        for d in [-2i64, -1, 0, 1, 2] {
            let n = (1u64 << k).wrapping_add(d as u64);
            assert_eq!(human_bytes(n), float_human_bytes(n), "{n}");
        }
    }
}

#[test]
fn human_age_examples() {
    assert_eq!(human_age(0), "0s");
    assert_eq!(human_age(45), "45s");
    assert_eq!(human_age(59), "59s");
    assert_eq!(human_age(60), "1m0s");
    assert_eq!(human_age(75), "1m15s");
    assert_eq!(human_age(3599), "59m59s");
    assert_eq!(human_age(3600), "1h0m");
    assert_eq!(human_age(3725), "1h2m");
}

fn table(command: &str, reply: &str) -> String {
    render(command, reply, OutputFormat::Table)
}

#[test]
fn error_reply() {
    assert_eq!(table("stats", r#"{"status":"error","message":"unknown command"}"#), "error: unknown command");
    assert_eq!(table("stats", r#"{"status":"error"}"#), "error: (no message)");
}

#[test]
fn key_value_reply() {
    let reply = r#"{"status":"ok","uptime_secs":12,"socks_listen":"127.0.0.1:9050","bootstrapped":true,"nested":{"a":null,"long_key":1.5,"status":"x"}}"#;
    let expected = "bootstrapped   true\nnested:\n  a            -\n  long_key     1.5\n  status       x\nsocks_listen   127.0.0.1:9050\nuptime_secs    12";
    assert_eq!(table("status", reply), expected);
}

#[test]
fn empty_object_reply() {
    assert_eq!(table("ping", r#"{"status":"ok"}"#), "ping: ok");
    assert_eq!(table("ping", "[1,2]"), "ping: ok");
}

#[test]
fn arrays_render_as_compact_json() {
    assert_eq!(table("x", r#"{"list":[1, "a", null]}"#), r#"list   [1,"a",null]"#);
}

#[test]
fn streams_reply() {
    let reply = r#"{"status":"ok","streams":[
        {"id":0,"peer":"local","target":"example.org:853","isolation":"dnsd","age_secs":75,"bytes_to_upstream":1536,"bytes_to_client":10},
        {"id":12,"peer":"10.0.0.1:5000","target":"1.1.1.1:443","isolation":null,"age_secs":3,"bytes_to_upstream":0,"bytes_to_client":2097152}
    ]}"#;
    let expected = "ID  PEER           TARGET           ISO   AGE    UP    DOWN\n\
                    0   local          example.org:853  dnsd  1m15s  1.5K  10B\n\
                    12  10.0.0.1:5000  1.1.1.1:443      -     3s     0B    2.0M";
    assert_eq!(table("streams", reply), expected);
}

#[test]
fn empty_streams_reply() {
    assert_eq!(table("streams", r#"{"status":"ok","streams":[]}"#), "no active connections");
}

#[test]
fn not_json_is_shown_raw() {
    assert_eq!(table("status", "garbage \n"), "garbage");
    assert_eq!(render("status", "garbage\t", OutputFormat::Json), "garbage");
}

#[test]
fn json_format_pretty_prints() {
    let out = render("stats", r#"{"b":1,"a":[true]}"#, OutputFormat::Json);
    assert_eq!(out, "{\n  \"a\": [\n    true\n  ],\n  \"b\": 1\n}");
}

#[test]
fn scalars() {
    let items = vec![
        Json::Null,
        Json::Bool(true),
        Json::Bool(false),
        num("3", Some(3)),
        num("-4", None),
        num("2.5", None),
        Json::Str("s".to_string()),
        Json::Object(vec![("k".to_string(), num("1", Some(1)))]),
    ];
    let texts: Vec<String> = items.iter().map(scalar).collect();
    assert_eq!(texts, vec!["-", "true", "false", "3", "-4", "2.5", "s", r#"{"k":1}"#]);
}

#[test]
fn render_table_on_built_value() {
    let v = Json::Object(vec![
        ("connects_total".to_string(), num("3", Some(3))),
        ("status".to_string(), Json::Str("ok".to_string())),
    ]);
    assert_eq!(render_table("stats", &v), "connects_total   3");
}
