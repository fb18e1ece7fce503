//! A small library of supervillains: a record of a first and a last name
//! that can be formatted to a full name, parsed back from one, and pointed
//! at any weapon that knows how to shoot.

pub mod parsing;
pub mod supervillain;
