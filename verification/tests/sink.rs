use datadog_logs::config::DatadogLogsConfig;
use datadog_logs::encoding::Encoding;
use datadog_logs::engine::Accepted;
use datadog_logs::event::LogEvent;
use datadog_logs::request::{Compression, WireRequest};

fn random_lines(len: usize, count: usize) -> Vec<String> {
    let alphabet: Vec<char> =
        "abcdefghijklmnopqrstuvwxyzABCDEFGHIJKLMNOPQRSTUVWXYZ0123456789".chars().collect();
    let mut state: u64 = 0x2545_f491_4f6c_dd1d;
    let mut lines = Vec::new();
    for _ in 0..count {
        let mut line = String::new();
        for _ in 0..len {
            state ^= state << 13;
            state ^= state >> 7;
            state ^= state << 17;
            line.push(alphabet[(state % alphabet.len() as u64) as usize]);
        }
        lines.push(line);
    }
    lines
}

fn event_with_api_key(msg: &str, key: &str) -> LogEvent {
    let mut e = LogEvent::from_message(msg);
    e.api_key = Some(key.to_string());
    e
}

fn load_sink(encoding: Encoding, endpoint: &str) -> DatadogLogsConfig {
    let mut config = DatadogLogsConfig::new("atoken".to_string(), encoding);
    config.compression = Some(Compression::Uncompressed);
    config.batch.max_events = Some(1);
    config.endpoint = Some(endpoint.to_string());
    config
}

fn run(config: &DatadogLogsConfig, events: Vec<LogEvent>) -> Vec<WireRequest> {
    let mut parts = config.build().unwrap();
    let mut sent = Vec::new();
    let mut now = 0u64;
    for event in events {
        now += 1;
        match parts.engine.accept(event, now) {
            Accepted::Taken(_, Some(out)) => sent.push(out.request.unwrap()),
            Accepted::Taken(_, None) => {}
            Accepted::Skipped => {}
            Accepted::Refused => panic!("no token left"),
        }
    }
    for out in parts.engine.shutdown() {
        sent.push(out.request.unwrap());
    }
    sent
}

#[test]
fn generate_config() {
    let text = DatadogLogsConfig::generate_config();
    let value: toml::Value = toml::from_str(&text).unwrap();
    let api_key = value.get("api_key").unwrap().as_str().unwrap().to_string();
    let codec = value.get("encoding").unwrap().get("codec").unwrap().as_str().unwrap();
    assert_eq!(api_key, "${DATADOG_API_KEY_ENV_VAR}");
    assert_eq!(codec, "json");
    let config = DatadogLogsConfig::new(api_key, Encoding::Structured);
    assert!(config.build().is_ok());
    assert_eq!(config.sink_type(), "datadog_logs");
}

#[test]
fn smoke_text() {
    let addr = "127.0.0.1:1234";
    let endpoint = format!("http://{}", addr);
    let config = load_sink(Encoding::Flat, &endpoint);

    let expected = random_lines(100, 10);
    let events = expected.iter().map(|l| LogEvent::from_message(l)).collect();

    let output = run(&config, events);
    assert_eq!(output.len(), expected.len());

    for (i, val) in output.iter().enumerate() {
        assert_eq!(val.header("Content-Type").unwrap(), "text/plain");
        assert_eq!(val.body, format!("{}\n", expected[i]).into_bytes());
        assert_eq!(val.uri, endpoint);
    }
}

#[test]
fn smoke_json() {
    let addr = "127.0.0.1:1234";
    let endpoint = format!("http://{}", addr);
    let config = load_sink(Encoding::Structured, &endpoint);

    let expected = random_lines(100, 10);
    let events = expected.iter().map(|l| LogEvent::from_message(l)).collect();

    let output = run(&config, events);
    assert_eq!(output.len(), expected.len());

    for (i, val) in output.iter().enumerate() {
        assert_eq!(val.header("Content-Type").unwrap(), "application/json");

        let json: serde_json::Value = serde_json::from_slice(&val.body[..]).expect("decoding json");

        // The body is an array of events. With max_events set to 1 each
        // body is an array that holds a single record.
        assert_eq!(json.as_array().unwrap().len(), 1);
        let message = json.get(0).unwrap().get("message").unwrap().as_str().unwrap();
        assert_eq!(message, expected[i]);
    }
}

#[test]
fn api_key_in_metadata() {
    let addr = "127.0.0.1:1234";
    let endpoint = format!("http://{}", addr);
    let config = load_sink(Encoding::Structured, &endpoint);

    let expected = random_lines(100, 10);
    let events = expected.iter().map(|l| event_with_api_key(l, "from_metadata")).collect();

    let output = run(&config, events);
    assert_eq!(output.len(), expected.len());

    for (i, val) in output.iter().enumerate() {
        assert_eq!(val.header("DD-API-KEY").unwrap(), "from_metadata");
        assert_eq!(val.header("Content-Type").unwrap(), "application/json");

        let json: serde_json::Value = serde_json::from_slice(&val.body[..]).expect("decoding json");
        let message = json.get(0).unwrap().get("message").unwrap().as_str().unwrap();
        assert_eq!(message, expected[i]);
    }
}

#[test]
fn multiple_api_keys() {
    let addr = "127.0.0.1:1234";
    let endpoint = format!("http://{}", addr);
    let config = load_sink(Encoding::Structured, &endpoint);

    let events = vec![
        event_with_api_key("mow", "pkc"),
        event_with_api_key("pnh", "vvo"),
        LogEvent::from_message("no API key in metadata"),
    ];

    let output = run(&config, events);
    assert_eq!(output.len(), 3);

    let mut keys: Vec<String> =
        output.iter().map(|r| r.header("DD-API-KEY").unwrap().clone()).collect();
    keys.sort();
    assert_eq!(keys, vec!["atoken", "pkc", "vvo"])
}
