pub mod amm;
pub mod discovery_laws;
pub mod encoding;
pub mod error;
pub mod events;
pub mod factory;
pub mod hooks;
pub mod lense;
pub mod pipeline;
pub mod pool;
pub mod pool_laws;
pub mod position;
pub mod position_laws;
pub mod snapshot;
pub mod sync;
pub mod sync_laws;
pub mod tick_laws;
pub mod tick_sync;
pub mod uniswap_v3;
pub mod word;
