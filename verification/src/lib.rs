//! A small library for reading a secret line of input without echo.
//!
//! `passstr` holds the secure byte container: it never stores the typed
//! characters contiguously (each append folds the content through a one-way
//! digest), compares in constant time, renders only a redacted placeholder,
//! and can be scrubbed to zero in place.
//!
//! `prompt` holds the decision logic of the character-by-character read
//! loop: which character finishes the line, which discards everything typed
//! so far, and how the terminal's mode flags are changed and restored.
pub mod passstr;
pub mod prompt;
