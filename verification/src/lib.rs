//! A codec for the Transit interchange format over a host JSON tree, with its two JSON
//! surfaces: the verbose one, which writes maps as objects, and the cached one, which
//! writes them as arrays and replaces repeated keys and tags by short back-references.

pub mod cache_codes;
pub mod cache_order;
pub mod cross_surface;
pub mod de;
pub mod envelope;
pub mod json;
pub mod round_trip;
pub mod ser;
pub mod text;
pub mod tilde;
pub mod value;
