pub mod bucket;
pub mod pair;
