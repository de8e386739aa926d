use cubert::logging::{file_stem, format_log_line, parse_level, sanitize, Level};

#[test]
fn level_names_and_parsing() {
    assert_eq!(parse_level("debug"), Level::Debug);
    assert_eq!(parse_level("INFO"), Level::Info);
    assert_eq!(parse_level("Warn"), Level::Warn);
    assert_eq!(parse_level("eRRoR"), Level::Error);
    assert_eq!(parse_level("verbose"), Level::Info);
    assert_eq!(parse_level(""), Level::Info);
    for level in [Level::Debug, Level::Info, Level::Warn, Level::Error] {
        assert_eq!(parse_level(level.as_str()), level);
    }
    assert_eq!(Level::Warn.as_str(), "WARN");
}

#[test]
fn level_threshold() {
    assert!(Level::Error.passes(Level::Info));
    assert!(Level::Info.passes(Level::Info));
    assert!(!Level::Debug.passes(Level::Info));
    assert!(Level::Debug.passes(Level::Debug));
    assert_eq!(Level::Debug.rank(), 0);
    assert_eq!(Level::Error.rank(), 3);
}

#[test]
fn per_strategy_file_stems() {
    assert_eq!(sanitize("../etc/passwd"), "___etc_passwd");
    assert_eq!(sanitize("spaces and:colons"), "spaces_and_colons");
    assert_eq!(file_stem("id-1", "../etc/passwd"), "___etc_passwd_id-1");
    assert_eq!(file_stem("../../id", "spaces and:colons"), "spaces_and_colons_______id");
    assert_eq!(
        file_stem("bc8f15d5-9fe6-47ee-9389-9c204894e8c2", "mean_reversion_stable"),
        "mean_reversion_stable_bc8f15d5-9fe6-47ee-9389-9c204894e8c2"
    );
    assert_eq!(file_stem("quiet-id", "quiet"), "quiet_quiet-id");
    assert_eq!(file_stem("derived-id", "derived"), "derived_derived-id");
    assert_eq!(file_stem("", ""), "unnamed");
    assert_eq!(file_stem("only-id", ""), "only-id");
    assert_eq!(file_stem("", "only name"), "only_name");
    assert_ne!(file_stem("id-one", "same_name"), file_stem("id-two", "same_name"));
}

#[test]
fn log_line_layout() {
    assert_eq!(
        format_log_line("2024-01-02 03:04:05.678", Level::Info, "BUY COIN (strength: 0.42)"),
        "[2024-01-02 03:04:05.678] [INFO] BUY COIN (strength: 0.42)"
    );
}
