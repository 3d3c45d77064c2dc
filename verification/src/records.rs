//! Tags of many payload types written and read through one record format.
//!
//! Every record names, in a discriminator, the payload type of the tag it
//! holds. The payload types form a closed set: a shape (one value, a list,
//! a set, a map) over a closed set of element types.

pub mod codec;
pub mod names;
pub mod value;
