pub mod content;
pub mod determinism;
pub mod encoding;
pub mod files;
pub mod git;
pub mod glob;
pub mod order;
pub mod patterns;
pub mod pipeline;
pub mod scan;
pub mod schedule;
pub mod tree;
pub mod url_parser;

pub use content::{ContentChunk, ContentWriter};
pub use encoding::{decode_file_content, fallback_decoding, TextEncoding};
pub use files::{format_file_size, FileService};
pub use git::GitService;
pub use patterns::{
    file_name, is_binary_file, normalize_pattern, CompiledMatcher, PatternService,
};
pub use pipeline::ScanPlan;
pub use scan::{ContentDecision, DirectoryRecord, WalkEntry};
pub use schedule::{FetchAction, FetchScheduler};
pub use url_parser::{ParsedUrl, UrlParser};
