pub mod tradeup;

pub mod tradeup_discovery;
