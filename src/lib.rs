//! A multi-project, multi-language store of translation strings: merging
//! translation sheets into it, and exporting per-language string bundles.
pub mod excel_file;
pub mod excel_reader;
pub mod excel_writer;
pub mod ios_generator;
pub mod json_data;
pub mod key_map;
pub mod keys;
pub mod merge_laws;
pub mod strings_generator;
pub mod text;
