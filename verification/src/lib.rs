//! A player of rhythm charts, in its verified parts.
//!
//! A chart is a text file that says, measure by measure and channel by
//! channel, what is to sound and what is to be played. This library reads
//! such a file into a time line of objects ([`parse`]), puts the time line
//! in order ([`sanitize`]), maps the lanes of the chart to the keys of a
//! layout ([`keyspec`], [`modf`]), and plays it: a clock turns the time on
//! the wall into a position in the chart ([`clock`], [`timeline`]), and the
//! play grades what the keys do against what the chart asks for
//! ([`player`], [`grade`]).
//!
//! Positions, tempos and factors are exact rational numbers ([`ratio`]).
//! Where a number on the way of a computation cannot be represented, the
//! computation says so and yields nothing.
//!
//! Around the play stand the rules of what is shown and looked up: where
//! the lanes stand on the screen ([`layout`]), the glyphs of the font
//! ([`font`]), the steps of the speed ([`speed`]), the names of keys and
//! buttons ([`input`]), and the names of files ([`path`]).
//!
//! The library does no input or output. It is handed the bytes of a file, a
//! source of random numbers, the time and the changes of keys, and hands
//! back what has to sound.

pub mod analyze;
pub mod block;
pub mod bms;
pub mod clock;
pub mod directive;
pub mod font;
pub mod grade;
pub mod image;
pub mod input;
pub mod key;
pub mod keyspec;
pub mod lane;
pub mod layout;
pub mod modf;
pub mod obj;
pub mod options;
pub mod parse;
pub mod path;
pub mod player;
pub mod pointer;
pub mod ratio;
pub mod replay;
pub mod rng;
pub mod sanitize;
pub mod scan;
pub mod speed;
pub mod timeline;
