use cubert::engine::{
    canonical_symbols, fed_symbols, fingerprints_match, group_by_startup, parse_symbols,
    reload_reuse, symbols_json, union_symbols, warmup_targets, StartupPlan,
};
use cubert::keyed::KeyedMap;

fn strings(items: &[&str]) -> Vec<String> {
    items.iter().map(|s| s.to_string()).collect()
}

#[test]
fn union_keeps_first_mentions_once() {
    let lists = vec![
        strings(&["AAPL", "TSLA"]),
        strings(&["TSLA", "NVDA", "AAPL"]),
        strings(&[]),
        strings(&["TSM", "NVDA"]),
    ];
    assert_eq!(union_symbols(&lists), strings(&["AAPL", "TSLA", "NVDA", "TSM"]));
    assert!(union_symbols(&Vec::new()).is_empty());
}

#[test]
fn warmup_groups_by_timeframe_and_limit() {
    let plans = vec![
        StartupPlan { startup: Some(("1Hour".to_string(), 50)), symbols: strings(&["AAPL", "TSLA"]) },
        StartupPlan { startup: None, symbols: strings(&["TSLA", "NVDA"]) },
        StartupPlan { startup: Some(("1Hour".to_string(), 500)), symbols: strings(&["AAPL", "OFF"]) },
    ];
    let requested = strings(&["AAPL", "TSLA", "NVDA"]);
    let groups = group_by_startup(&plans, &requested);
    assert_eq!(groups.len(), 2);
    assert_eq!(groups[0].timeframe, "1Hour");
    assert_eq!(groups[0].limit, 50);
    assert_eq!(groups[0].symbols, strings(&["AAPL", "TSLA", "NVDA"]));
    assert_eq!(groups[1].limit, 500);
    assert_eq!(groups[1].symbols, strings(&["AAPL"]));
}

#[test]
fn reload_check_compares_entry_by_entry() {
    let a = vec![("m".to_string(), "[\"AAPL\"]".to_string(), "{}".to_string())];
    let b = vec![("m".to_string(), "[\"AAPL\"]".to_string(), "{}".to_string())];
    let c = vec![("m".to_string(), "[\"TSLA\"]".to_string(), "{}".to_string())];
    assert!(fingerprints_match(&a, &b));
    assert!(!fingerprints_match(&a, &c));
    assert!(!fingerprints_match(&a, &Vec::new()));
}

#[test]
fn symbol_lists_as_json() {
    assert_eq!(canonical_symbols("[ \"AAPL\" ,  \"TSLA\" ]"), "[\"AAPL\",\"TSLA\"]");
    assert_eq!(canonical_symbols("not json"), "not json");
    assert_eq!(parse_symbols("[\"AAPL\",\"TSLA\"]"), strings(&["AAPL", "TSLA"]));
    assert!(parse_symbols("{broken").is_empty());
    assert_eq!(symbols_json(&strings(&["AAPL", "TSLA"])), "[\"AAPL\",\"TSLA\"]");
    assert_eq!(symbols_json(&Vec::new()), "[]");
}

#[test]
fn warmup_bars_go_only_to_strategies_with_that_timeframe_and_limit() {
    let plans = vec![
        StartupPlan { startup: Some(("1Hour".to_string(), 50)), symbols: strings(&["AAPL", "TSLA"]) },
        StartupPlan { startup: None, symbols: strings(&["TSLA", "NVDA"]) },
        StartupPlan { startup: Some(("1Hour".to_string(), 500)), symbols: strings(&["AAPL", "OFF"]) },
        StartupPlan { startup: Some(("1Day".to_string(), 50)), symbols: strings(&["AAPL"]) },
    ];
    let requested = strings(&["AAPL", "TSLA", "NVDA"]);
    let groups = group_by_startup(&plans, &requested);
    assert_eq!(groups.len(), 3);
    assert_eq!(warmup_targets(&plans, &groups[0], "AAPL"), vec![0]);
    assert_eq!(warmup_targets(&plans, &groups[0], "TSLA"), vec![0, 1]);
    assert_eq!(warmup_targets(&plans, &groups[0], "NVDA"), vec![1]);
    assert_eq!(warmup_targets(&plans, &groups[1], "AAPL"), vec![2]);
    assert_eq!(warmup_targets(&plans, &groups[2], "AAPL"), vec![3]);
    // Bars the feed returns for a symbol the request did not ask for still go
    // to the strategies trading it with that timeframe and limit.
    assert_eq!(warmup_targets(&plans, &groups[1], "OFF"), vec![2]);
    assert!(warmup_targets(&plans, &groups[1], "TSLA").is_empty());
}

#[test]
fn each_bar_goes_to_subscribed_symbols() {
    let mut bars: KeyedMap<u32> = KeyedMap::new();
    bars.insert("AAPL".to_string(), 1);
    bars.insert("NVDA".to_string(), 2);
    assert_eq!(fed_symbols(&strings(&["TSLA", "NVDA", "AAPL"]), &bars), vec![1, 2]);
    assert!(fed_symbols(&strings(&["TSLA"]), &bars).is_empty());
    assert!(fed_symbols(&Vec::new(), &bars).is_empty());
}

fn entry(name: &str, symbols: &str, params: &str) -> (String, String, String) {
    (name.to_string(), symbols.to_string(), params.to_string())
}

#[test]
fn reload_rebuilds_only_changed_strategies() {
    let running = vec![
        entry("m", "[\"AAPL\"]", "{}"),
        entry("r", "[\"TSLA\"]", "{\"window\":60}"),
        entry("m", "[\"AAPL\"]", "{}"),
    ];
    // Nothing changed: everything stays where it is.
    assert_eq!(reload_reuse(&running, &running), vec![Some(0), Some(1), Some(2)]);
    // One entry changed its params, one was added, one twin was dropped.
    let stored = vec![
        entry("r", "[\"TSLA\"]", "{\"window\":30}"),
        entry("m", "[\"AAPL\"]", "{}"),
        entry("m", "[\"AAPL\"]", "{}"),
        entry("m", "[\"AAPL\"]", "{}"),
    ];
    assert_eq!(reload_reuse(&stored, &running), vec![None, Some(0), Some(2), None]);
    assert!(reload_reuse(&Vec::new(), &running).is_empty());
}

#[test]
fn symbol_json_escapes_quotes_backslashes_and_controls() {
    assert_eq!(
        symbols_json(&strings(&["A\"B", "C\\D", "E\nF", "G\u{1}H", "\u{e9}"])),
        "[\"A\\\"B\",\"C\\\\D\",\"E\\nF\",\"G\\u0001H\",\"\u{e9}\"]"
    );
    assert_eq!(symbols_json(&strings(&["\u{1f}"])), "[\"\\u001f\"]");
    assert_eq!(canonical_symbols("[\"A\\u0022\"]"), "[\"A\\\"\"]");
}
