//! What the operations are for: relations between their inputs and their results.

pub mod arithmetic;
pub mod comparing;
pub mod date_methods;
pub mod dates;
pub mod dict_views;
pub mod equality;
pub mod field_forms;
pub mod files;
pub mod host;
pub mod items;
pub mod objects;
pub mod ordering;
pub mod paths;
pub mod regex_rows;
pub mod regexes;
pub mod results;
pub mod str_calls;
pub mod str_ends;
pub mod str_forms;
pub mod str_limits;
pub mod str_parts;
pub mod str_texts;
pub mod strings;
pub mod views;
pub mod writing;
pub mod written_forms;
