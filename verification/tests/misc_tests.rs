use cubert::config::ConfigError;
use cubert::data::{
    bars_url, fallback_bar, fallback_request, latest_bars_source, latest_bars_url, DataError,
    LatestBarsSource,
};
use cubert::model::{check_input, check_status, ModelError};

#[test]
fn market_data_requests() {
    let symbols = vec!["AAPL".to_string(), "TSLA".to_string()];
    assert_eq!(
        bars_url("https://data.alpaca.markets", &symbols, "1Hour", 50, "2024-01-01T00:00:00Z"),
        "https://data.alpaca.markets/v2/stocks/bars?symbols=AAPL,TSLA&timeframe=1Hour&limit=50&start=2024-01-01T00:00:00Z&feed=iex"
    );
    assert_eq!(
        latest_bars_url("https://d", &symbols),
        "https://d/v2/stocks/bars/latest?symbols=AAPL,TSLA&feed=iex"
    );
}

#[test]
fn data_error_texts() {
    assert_eq!(DataError::ConnectionFailed("x".to_string()).to_string(), "Connection failed: x");
    assert_eq!(DataError::ParseError("y".to_string()).to_string(), "Parse error: y");
    assert_eq!(DataError::no_bar_for("AAPL").to_string(), "Not found: No bar for AAPL");
}

#[test]
fn model_rules() {
    assert_eq!(check_input(0), Err(ModelError::ModelErrorInvalidInput));
    assert_eq!(check_input(3), Ok(()));
    assert_eq!(check_status(0), Ok(()));
    assert_eq!(check_status(-1), Err(ModelError::ModelErrorFail));
    assert_eq!(ModelError::ModelErrorFail.to_string(), "Model execution failed");
    assert_eq!(ModelError::ModelErrorInvalidInput.to_string(), "Invalid input data");
}

#[test]
fn config_error_texts() {
    assert_eq!(
        ConfigError::FileNotFound("config.toml".to_string()).to_string(),
        "Config file not found: config.toml"
    );
    assert_eq!(ConfigError::ParseError("bad".to_string()).to_string(), "Failed to parse config: bad");
    let io = std::io::Error::new(std::io::ErrorKind::Other, "disk");
    let e: ConfigError = io.into();
    assert_eq!(e.to_string(), "IO error: disk");
}

#[test]
fn latest_bars_fall_back_to_one_daily_bar() {
    assert_eq!(latest_bars_source(true, true), LatestBarsSource::Latest);
    assert_eq!(latest_bars_source(true, false), LatestBarsSource::DailyFallback);
    assert_eq!(latest_bars_source(false, true), LatestBarsSource::DailyFallback);
    assert_eq!(fallback_request(), ("1Day", 1));
    assert_eq!(fallback_bar(Some(vec![7, 8])), Some(7));
    assert_eq!(fallback_bar::<u8>(Some(vec![])), None);
    assert_eq!(fallback_bar::<u8>(None), None);
}
