//! The built-in types.

pub mod bytes;
pub mod containers;
pub mod dataclass;
pub mod dataclass_ops;
pub mod date;
pub mod date_ops;
pub mod datetime;
pub mod datetime_methods;
pub mod datetime_ops;
pub mod dict_view;
pub mod dict_view_ops;
pub mod file;
pub mod file_buffer;
pub mod file_chunk;
pub mod file_mode;
pub mod file_ops;
pub mod file_store;
pub mod iso_text;
pub mod long_int;
pub mod namedtuple;
pub mod path;
pub mod path_host;
pub mod path_ops;
pub mod py_type;
pub mod re_match;
pub mod re_methods;
pub mod re_ops;
pub mod re_pattern;
pub mod re_template;
pub mod sizes;
pub mod slice;
pub mod slice_ops;
pub mod str;
pub mod str_args;
pub mod str_chars;
pub mod str_format;
pub mod str_literal;
pub mod str_methods;
pub mod str_repr;
pub mod str_search;
pub mod test_cm;
pub mod timedelta;
pub mod timezone;
pub mod tuple;
pub mod tuple_ops;
pub mod tuple_vec;
