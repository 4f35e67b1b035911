//! What the operations are for, said of what goes in and what comes out.

pub mod answers;
pub mod forwarding;
pub mod loading;
pub mod relaying;
pub mod values;
pub mod views;
