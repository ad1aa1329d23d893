//! What comes from the exchange: the directory of listed companies and the
//! answers of the trading-data service.

pub mod company_map;
pub mod stock_data;
