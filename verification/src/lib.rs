//! More collection types.
//!
//! - [`SmallMap`] and [`SmallSet`] keep their entries in a short list while there are at most
//!   `C` of them and move to a hashed, insertion-ordered map beyond that.
//! - [`VecMap`] is a vector-backed map for keys that stand for an index.
use vstd::prelude::*;

pub mod debug_text;
pub mod entries;
pub mod key_index;
pub mod ordered_map;
pub mod small_map;
pub mod small_set;
pub mod vec_map;

pub use ordered_map::OrderedMap;
pub use small_map::SmallMap;
pub use small_set::SmallSet;
pub use vec_map::index_vec::IndexVec;
pub use vec_map::IndexKey;
