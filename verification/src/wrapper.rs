//! The inputs that requests to WebReg take, and the logic that turns them into
//! requests and reads the answers.
pub mod input_types;
pub mod requests;
