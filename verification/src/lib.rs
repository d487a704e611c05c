pub mod num;
pub mod outside;
pub mod text;
pub mod types;
pub mod order;
pub mod raw_types;
pub mod util;
pub mod grouping;
pub mod ww_parser;
pub mod wrapper;
pub mod display;
