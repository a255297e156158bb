//! The engine: its state, its controls, the mixer and the minting of keys.

pub mod controls;
pub mod identity;
pub mod logbook;
pub mod metrics;
pub mod mint;
pub mod mixer;
pub mod peer;
pub mod ring;
pub mod rng;
pub mod sources;
pub mod state;

pub use identity::SigningKey;
pub use logbook::LogBook;
pub use metrics::MetricsSnapshot;
pub use rng::HarvestedRng;
pub use state::{ChaosEngine, HeadscaleState, P2PConfig, SharedState};
