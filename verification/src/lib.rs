//! Vertical extent analysis: which words of a word list reach lowest and
//! highest when set in a typeface, at each point of its design space.
//!
//! A [`font::Reporter`] reads a font and lists the locations of its design
//! space that are worth testing. At each location the vertical bounds of
//! all glyphs are collected once, in an [`instance::InstanceExtremes`]; the
//! words of a word list are shaped, each shaped word is measured against
//! those bounds, and an [`exemplars::ExemplarCollector`] keeps the most
//! extreme words in bounded memory. Collectors of parts of a word list can
//! be merged; [`merging`] proves that nothing is lost by that.

pub mod design_space;
pub mod errors;
pub mod exemplars;
pub mod extremes;
pub mod font;
pub mod instance;
pub mod location_order;
pub mod locations;
pub mod merging;
pub mod ranking;
pub mod reporter;
pub mod shaping;
pub mod tags;
pub mod word_lists;
