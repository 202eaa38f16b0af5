//! Conversion of a JVM heap capture into the rows of a relational store.
//!
//! A capture is a stream of typed records. It is read twice. The first pass
//! ([`ident`]) gives every class and name identifier a small dense key. The
//! second ([`loader`]) turns each record into the rows that describe it,
//! with the help of what it has learned of the classes ([`hierarchy`]), of
//! the values that it reads from the bytes of each instance ([`value`]) and
//! of the text that it finds in arrays ([`text`]). Nothing here touches a
//! file or a database: the caller hands over records ([`capture`]) and
//! receives rows ([`row`]), all of them or, where the capture is in error
//! ([`error`]), none.
//!
//! A capture can be handed over as a whole or record by record, and a heap
//! dump segment in pieces: the rows are the same ([`laws`]).
//!
//! Objects get their keys in the second pass, by counting. A reference to
//! an object is stored as the identifier that the capture gives the object,
//! since the object may come later in the capture than the reference; the
//! row of an object's key holds that identifier, so that references can be
//! resolved once all rows are written. Two objects to which the capture
//! gives the same identifier are two objects, each with a key of its own.
//!
//! Floating-point values are held as their bit patterns, at the width that
//! they have in the capture.

pub mod capture;
pub mod error;
pub mod hierarchy;
pub mod ident;
pub mod laws;
pub mod loader;
pub mod row;
pub mod text;
pub mod value;
