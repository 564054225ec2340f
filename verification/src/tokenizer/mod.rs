//! The tokenizer: a state machine that reads a character stream and leaves
//! the tokens and diagnostics it finds in a store.
pub mod frame;
pub mod state;
pub mod store;
