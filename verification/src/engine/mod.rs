//! Match engines: the ways a query is matched against an item.
pub mod all;
pub mod andor;
pub mod util;
pub mod exact;
pub mod regexp;
pub mod split;
pub mod fuzzy;
