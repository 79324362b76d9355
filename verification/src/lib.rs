//! A JavaScript engine core: numbers, dates, texts, objects and their
//! built-in operations.
pub mod array;
pub mod array_laws;
pub mod array_like;
pub mod array_sort;
pub mod bigint;
pub mod bignat;
pub mod boolean;
pub mod builtin_laws;
pub mod builtins;
pub mod calendar;
pub mod collection_laws;
pub mod convert;
pub mod ctx;
pub mod date;
pub mod date_arith;
pub mod date_fallback;
pub mod date_laws;
pub mod date_parse;
pub mod date_round_trip;
pub mod date_text;
pub mod decimal;
pub mod define_laws;
pub mod descriptor;
pub mod dictionary;
pub mod display;
pub mod double;
pub mod engine;
pub mod error;
pub mod error_object;
pub mod format_laws;
pub mod global;
pub mod heap;
pub mod install;
pub mod integrity_laws;
pub mod internal_methods;
pub mod iso_laws;
pub mod iterator;
pub mod jit_tier;
pub mod job_queue;
pub mod json;
pub mod json_laws;
pub mod json_text;
pub mod json_write_laws;
pub mod key_order;
pub mod map;
pub mod match_laws;
pub mod math;
pub mod math_laws;
pub mod message;
pub mod native;
pub mod number;
pub mod number_format;
pub mod number_laws;
pub mod object;
pub mod object_define;
pub mod object_describe;
pub mod object_laws;
pub mod object_list;
pub mod parse_laws;
pub mod promise;
pub mod promise_laws;
pub mod properties;
pub mod property_laws;
pub mod proxy;
pub mod radix;
pub mod radix_laws;
pub mod read_back;
pub mod record;
pub mod reflect;
pub mod regexp;
pub mod show_laws;
pub mod slots;
pub mod string;
pub mod string_laws;
pub mod string_regexp;
pub mod symbol;
pub mod text;
pub mod utf8;
pub mod value;
