pub mod hashing;
pub mod levels;
pub mod shape;
pub mod tree;
