pub mod chunks;
pub mod errors;
pub mod ids;
pub mod laws;
pub mod lemmas;
pub mod model;
pub mod storage;
