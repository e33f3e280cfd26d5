pub mod turn;
pub mod approval;
pub mod thread;
pub mod restore_law;
pub mod session;
pub mod manager;
pub mod progress;
pub mod reload_law;
