//! The tree builder: arranges the tokens of a source into a document. The
//! tokens can be handed over one by one while the tokenizer runs, or all at
//! once when it has finished.
pub mod agree;
pub mod speculative;
pub mod synchronous;
