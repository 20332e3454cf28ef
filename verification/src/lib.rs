//! A personal template manager: templates with a header of variables and a
//! body of placeholders, and the store that keeps them.

pub mod add;
pub mod apply;
pub mod laws;
pub mod list;
pub mod path;
pub mod search;
pub mod store;
pub mod template;
pub mod text;
pub mod value;
pub mod variables;
pub mod yaml;
