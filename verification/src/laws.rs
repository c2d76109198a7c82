//! What the functions of this library do, stated of their arguments and their results.
//!
//! The other modules say in contracts what a function returns. Here the same functions are held
//! to what they are for: every law takes arguments of a call with a result that the contract
//! admits, and says of that result, in the terms of the caller, what it has to satisfy or how it
//! relates to the result of another call.
pub mod audio;
pub mod checkpoint;
pub mod names;
pub mod spectral;
pub mod streaming;
pub mod text;
