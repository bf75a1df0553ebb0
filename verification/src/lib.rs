//! Metadata extraction for data and document file formats, verified with Verus.

pub mod text;
pub mod pickle;
pub mod results;
pub mod csv;
pub mod ini;
pub mod regexp;
pub mod npy;
pub mod npy_sample;
pub mod pdfdate;
pub mod pdf;
pub mod xml;
pub mod office;
pub mod archive;
pub mod npz;
pub mod video;
pub mod sqlite;
pub mod settings_toml;
pub mod sorted_map;
pub mod settings_yaml;
pub mod json;
pub mod json_templates;
pub mod templates;
pub mod markdown;
pub mod mat;
pub mod columnar;
pub mod epub;
pub mod netcdf;
pub mod text_patterns;
pub mod logs;
pub mod sqlite_schema;
pub mod settings_xml;
pub mod pivots;
pub mod tensor3d;
pub mod array_dtypes;
pub mod sentence_templates;
pub mod writing;
pub mod column_tallies;
pub mod log_templates;
