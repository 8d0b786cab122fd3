//! Mimas language toolkit: the dimension algebra behind unit checking, schema
//! specs, and content-addressed function extraction.

pub mod text;
pub mod units;
pub mod schema;
pub mod items;
pub mod digest;
pub mod dims;
pub mod frames;
pub mod bench;
pub mod formats;
pub mod dataflow;
pub mod tests_list;
pub mod attrs;
pub mod syntax;
pub mod frame_schema;
pub mod natives;
pub mod canon;
pub mod refs;
pub mod dim_check;
pub mod col_expr;
pub mod frame_call;
pub mod annotation;
pub mod parse_item;
pub mod split;
pub mod patterns;
pub mod scales;
