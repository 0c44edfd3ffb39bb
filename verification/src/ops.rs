pub mod first;
pub mod fork;
pub mod publish;
pub mod take;
pub mod throttle_time;
