//! Words and what is known of them.
//!
//! The heart of the library is [`ara::aramorph`]: a word is cut into prefix,
//! stem and suffix in every way that its length allows, each part is looked
//! up in its dictionary, and a choice of three entries is a reading of the
//! word where the compatibility tables allow their categories together.
//! [`ara::aramorph::dict`] reads a dictionary from the lines of its file,
//! [`ara::aramorph::table`] a table.
//!
//! Around it stand a lexicon of lemmas ([`lexicon`], [`omni`], [`nld`]), the
//! lines of two formats of sense dictionaries ([`wn`]), the endings of English
//! verbs ([`eng`]), and what is shared: [`strings`], [`sequences`] and
//! [`pattern`].
pub mod ara;
pub mod eng;
pub mod lexicon;
pub mod nld;
pub mod omni;
pub mod pattern;
pub mod segment;
pub mod sequences;
pub mod strings;
pub mod text;
pub mod uxy;
pub mod wn;
