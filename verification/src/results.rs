//! Result records produced by the parsers.

use vstd::prelude::*;

use crate::pickle::opt_text;

verus! {

/// Metadata of a pickle file, from a header sniff and a read-only opcode walk.
pub struct PickleMetadata {
    pub byte_count: usize,
    pub protocol: Option<u8>,
    pub encoding: String,
    pub protocols_seen: Vec<u8>,
    pub frame_count: usize,
    pub frame_bytes_total: u64,
    pub referenced_globals: Vec<String>,
    pub builtin_types: Vec<String>,
    pub content_hint: Option<String>,
    pub scan_truncated: bool,
    pub scan_error: Option<String>,
}


/// Output mode for results.
#[derive(PartialEq, Eq, Structural, Clone, Copy, Debug)]
pub enum OutputMode {
    /// Templates and writing footprint (minimal, for AI consumption and style analysis).
    Templates,
    /// Full metadata (for development and debugging).
    Full,
}

/// Extracted template: a pattern with placeholders, how many lines match it, and
/// example values per placeholder (sorted by placeholder name).
pub struct Template {
    pub pattern: String,
    pub count: usize,
    pub examples: Vec<(String, Vec<String>)>,
}

/// The counts of a template mining result: the templates, the tokens of the
/// input, and the tokens the templates take.
pub struct MiningCounts {
    pub templates: Vec<Template>,
    pub original_tokens: usize,
    pub compressed_tokens: usize,
}

/// A mining result without templates, for an input of `token_count` tokens.
pub fn empty_mining_result(token_count: usize) -> (r: MiningCounts)
    ensures
        r.templates.len() == 0,
        r.original_tokens == token_count,
        r.compressed_tokens == 0,
{
    MiningCounts { templates: Vec::new(), original_tokens: token_count, compressed_tokens: 0 }
}

/// Serialized `encoding` labels in columnar and CSV metadata.
pub struct StructuredEncoding;

impl StructuredEncoding {
    pub const TABULAR_BINARY: &'static str = "binary";
    pub const NUMPY: &'static str = "numpy";
    pub const MATLAB: &'static str = "matlab";
    pub const MATRIX_MARKET: &'static str = "matrix-market";
}

/// Encoding labels for delimiter-separated text.
pub struct CsvEncodingLabel;

impl CsvEncodingLabel {
    pub const UTF8: &'static str = "UTF-8";
    pub const NON_UTF8: &'static str = "Non-UTF-8";
}

/// Container kinds of Arrow IPC data.
pub struct ArrowIpcContainerKind;

impl ArrowIpcContainerKind {
    pub const IPC_FILE: &'static str = "ipc_file";
    pub const IPC_STREAM: &'static str = "ipc_stream";
    pub const FEATHER: &'static str = "feather";
}

/// Matrix Market symmetry labels.
pub struct MtxSymmetryLabel;

impl MtxSymmetryLabel {
    pub const GENERAL: &'static str = "general";
    pub const SYMMETRIC: &'static str = "symmetric";
}

/// Fields shared by tabular formats.
pub struct ColumnarCommonFields {
    pub row_count: usize,
    pub column_count: usize,
    pub stats_rows_sampled: Option<usize>,
    pub encoding: Option<String>,
}

/// Layout of delimiter-separated text.
pub struct CsvMetadata {
    pub common: ColumnarCommonFields,
    pub column_names: Option<Vec<String>>,
    pub delimiter: Option<String>,
    pub quote_character: Option<String>,
    pub escape_character: Option<String>,
    pub has_header: Option<bool>,
}


/// Layout of a `.npy` array: header fields and where the data lies.
pub struct ArrayLayoutSummary {
    pub format_version: Option<String>,
    pub dtype: Option<String>,
    pub shape: Option<Vec<usize>>,
    pub fortran_order: Option<bool>,
    pub header_region_bytes: Option<usize>,
    pub data_offset: Option<usize>,
    pub data_region_bytes: Option<usize>,
    pub expected_data_bytes_from_dtype: Option<usize>,
}

/// Size of one worksheet, as the spreadsheet reader reports it.
pub struct SheetSize {
    pub name: String,
    pub rows: usize,
    pub columns: usize,
}

/// Model of a worksheet size.
pub open spec fn sheet_size_view(s: SheetSize) -> (Seq<char>, usize, usize) {
    (s.name@, s.rows, s.columns)
}

/// Models of worksheet sizes.
pub open spec fn sheet_sizes_view(v: Seq<SheetSize>) -> Seq<(Seq<char>, usize, usize)> {
    v.map_values(|s: SheetSize| sheet_size_view(s))
}

/// Metadata of a word-processing document or a workbook.
pub struct DocumentMetadata {
    pub file_size: Option<usize>,
    pub title: Option<String>,
    pub author: Option<String>,
    pub subject: Option<String>,
    pub description: Option<String>,
    pub creation_date: Option<String>,
    pub modified_date: Option<String>,
    pub last_modified_by: Option<String>,
    pub revision: Option<i64>,
    pub word_count: Option<usize>,
    pub character_count: Option<usize>,
    pub character_count_no_spaces: Option<usize>,
    pub paragraph_count: Option<usize>,
    pub sheet_count: Option<usize>,
    pub sheet_stats: Option<Vec<SheetSize>>,
}

/// Model of [`DocumentMetadata`].
pub struct DocMetaView {
    pub file_size: Option<usize>,
    pub title: Option<Seq<char>>,
    pub author: Option<Seq<char>>,
    pub subject: Option<Seq<char>>,
    pub description: Option<Seq<char>>,
    pub creation_date: Option<Seq<char>>,
    pub modified_date: Option<Seq<char>>,
    pub last_modified_by: Option<Seq<char>>,
    pub revision: Option<i64>,
    pub word_count: Option<usize>,
    pub character_count: Option<usize>,
    pub character_count_no_spaces: Option<usize>,
    pub paragraph_count: Option<usize>,
    pub sheet_count: Option<usize>,
    pub sheet_stats: Option<Seq<(Seq<char>, usize, usize)>>,
}

impl View for DocumentMetadata {
    type V = DocMetaView;

    open spec fn view(&self) -> DocMetaView {
        DocMetaView {
            file_size: self.file_size,
            title: opt_text(self.title),
            author: opt_text(self.author),
            subject: opt_text(self.subject),
            description: opt_text(self.description),
            creation_date: opt_text(self.creation_date),
            modified_date: opt_text(self.modified_date),
            last_modified_by: opt_text(self.last_modified_by),
            revision: self.revision,
            word_count: self.word_count,
            character_count: self.character_count,
            character_count_no_spaces: self.character_count_no_spaces,
            paragraph_count: self.paragraph_count,
            sheet_count: self.sheet_count,
            sheet_stats: match self.sheet_stats {
                Some(v) => Some(sheet_sizes_view(v@)),
                None => None,
            },
        }
    }
}

/// Metadata of a presentation.
pub struct PptxMetadata {
    pub file_size: Option<usize>,
    pub title: Option<String>,
    pub author: Option<String>,
    pub creation_date: Option<String>,
    pub modification_date: Option<String>,
    pub slide_count: Option<usize>,
}

/// Model of [`PptxMetadata`].
pub struct PptxView {
    pub file_size: Option<usize>,
    pub title: Option<Seq<char>>,
    pub author: Option<Seq<char>>,
    pub creation_date: Option<Seq<char>>,
    pub modification_date: Option<Seq<char>>,
    pub slide_count: Option<usize>,
}

impl View for PptxMetadata {
    type V = PptxView;

    open spec fn view(&self) -> PptxView {
        PptxView {
            file_size: self.file_size,
            title: opt_text(self.title),
            author: opt_text(self.author),
            creation_date: opt_text(self.creation_date),
            modification_date: opt_text(self.modification_date),
            slide_count: self.slide_count,
        }
    }
}

} // verus!
