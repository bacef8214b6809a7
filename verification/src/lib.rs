pub mod binary64;
pub mod call_laws;
pub mod check;
pub mod check_laws;
pub mod decision;
pub mod discovery;
pub mod engine;
pub mod engine_laws;
pub mod feeds;
pub mod http_status;
pub mod lookup_laws;
pub mod number_laws;
pub mod order_laws;
pub mod orders;
pub mod quote_laws;
pub mod quoting;
pub mod ranking_laws;
pub mod regime;
pub mod regime_laws;
pub mod reward_laws;
pub mod rewards;
pub mod rounding;
pub mod row_laws;
pub mod rows;
pub mod spreads;
pub mod startup;
pub mod step_laws;
pub mod text;
pub mod text_laws;
