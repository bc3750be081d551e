pub mod dash;
