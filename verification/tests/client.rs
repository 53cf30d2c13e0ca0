use marketdata_service::client::{parse_list, ClientConfig, ClientVars, Tally};

fn no_vars() -> ClientVars {
    ClientVars { target: None, figi: None, figis: None, secs: None, verbose: None }
}

fn set(text: &str) -> Option<String> {
    Some(text.to_string())
}

#[test]
fn lists_are_trimmed_and_have_no_empty_entries() {
    assert_eq!(parse_list("a,b"), vec!["a", "b"]);
    assert_eq!(parse_list(" a , ,b,, c d ,"), vec!["a", "b", "c d"]);
    assert!(parse_list("").is_empty());
    assert!(parse_list(" , ").is_empty());
    assert_eq!(parse_list("solo"), vec!["solo"]);
}

#[test]
fn client_defaults() {
    let config = ClientConfig::from_vars(&no_vars());
    assert_eq!(
        config,
        ClientConfig {
            target: "http://127.0.0.1:50051".to_string(),
            figis: vec!["BBG000000001".to_string()],
            secs: 3,
            verbose: false,
        }
    );
}

#[test]
fn client_settings() {
    let mut vars = no_vars();
    vars.figi = set(" BBG000000007 ");
    assert_eq!(ClientConfig::from_vars(&vars).figis, vec!["BBG000000007"]);
    vars.figis = set("BBG000000001, BBG000000002");
    vars.target = set("http://10.0.0.1:1");
    vars.secs = set("10");
    vars.verbose = set("0");
    let config = ClientConfig::from_vars(&vars);
    assert_eq!(config.figis, vec!["BBG000000001", "BBG000000002"]);
    assert_eq!(config.target, "http://10.0.0.1:1");
    assert_eq!(config.secs, 10);
    assert!(config.verbose);
    vars.secs = set("ten");
    vars.verbose = set("");
    let config = ClientConfig::from_vars(&vars);
    assert_eq!(config.secs, 3);
    assert!(config.verbose);
}

#[test]
fn updates_are_tallied() {
    let mut tally = Tally::new();
    let first = tally.on_update(0);
    assert!(first.first && !first.summary);
    for n in 2..=49u64 {
        let notice = tally.on_update(n);
        assert!(!notice.first && !notice.summary);
    }
    let fiftieth = tally.on_update(7);
    assert!(!fiftieth.first && fiftieth.summary);
    assert_eq!(tally, Tally { received: 50, dropped: 7 });
}
