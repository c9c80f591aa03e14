//! The dynamic value tree.
//!
//! A [`Value`] is a leaf or a composite: an [`Array`] of values, or an
//! [`Object`] of values under distinct keys in the order of their insertion.
//! What a value is, apart from how it is stored, is its [`Tree`]; the
//! contracts are stated over trees.
pub mod array;
pub mod drop;
pub mod number;
pub mod object;
pub mod relay;
pub mod text;
pub mod tree;
pub mod value;

pub use self::array::Array;
pub use self::number::{Float, Number};
pub use self::object::Object;
pub use self::tree::Tree;
pub use self::value::Value;
