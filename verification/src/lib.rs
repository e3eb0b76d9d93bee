//! Containers and owning pointers: a growable array, an open-addressing hash
//! map, a byte string, and exclusive and shared owners of one heap value.

pub mod arc;
pub mod boxed;
pub mod hash;
pub mod hashmap;
pub mod string;
pub mod vec;

pub use arc::Arc;
pub use boxed::Box;
pub use boxed::Unique;
pub use hashmap::HashMap;
pub use string::Append;
pub use string::Lines;
pub use string::Split;
pub use string::String;
pub use vec::Vec;
pub use vec::VecAppend;
