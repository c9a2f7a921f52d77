//! A live score push service: a producer advances a score on a timer and a
//! broadcast hub fans every new score out to the bounded queues of all
//! connected subscribers, which stream transports turn into event frames.

pub mod frame;
pub mod hub;
pub mod laws;
pub mod producer;
pub mod score;
pub mod transport;
