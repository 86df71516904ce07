//! A parser-combinator engine over a rewindable input.
//!
//! A parser ([`parser::Parser`]) reads an input ([`input::Input`]) through a
//! handle ([`input::InputRef`]) that can go back to an offset it was at. It
//! runs in one of two modes ([`mode::Mode`]): to validate the input, or to
//! produce an output. Parsers are built from other parsers by combinators:
//!
//! - [`transform`]: the output changed by a function;
//! - [`sequence`]: one parser after another;
//! - [`choice`]: alternatives and lookahead;
//! - [`repeat`] and [`exact`]: repetition, into a collection
//!   ([`container`], [`collections`]);
//! - [`fold`]: a sequence of outputs brought down to one value;
//! - [`adapt`]: the error changed by a function.
//!
//! [`primitive`] holds the parsers that read tokens themselves, and [`text`]
//! the parsers of text.
//!
//! Every parser comes with a specification, `spec_go`: a function from the
//! mode of a run and the cursor at which it starts to the cursor at which it
//! stops and to the output or the error. It is stated over the models
//! ([`model`]) of values, and what it says is what `go` is proved to do.
//! [`laws`] holds what follows for all inputs.

pub mod adapt;
pub mod choice;
pub mod collections;
pub mod container;
pub mod error;
pub mod exact;
pub mod fold;
pub mod function;
pub mod input;
pub mod laws;
pub mod mode;
pub mod model;
pub mod parser;
pub mod primitive;
pub mod repeat;
pub mod sequence;
pub mod strings;
pub mod text;
pub mod transform;
