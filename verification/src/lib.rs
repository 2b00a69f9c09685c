pub mod config;
pub mod error;
pub mod models;
pub mod services;
pub mod text;
pub mod utils;

pub use config::AppConfig;
pub use error::GitingestError;
pub use models::{
    default_exclude_patterns, CloneConfig, DownloadFormat, FileNode, FileNodeType,
    FileSystemStats, IngestRequest, IngestResponse, IngestStatus, PatternMatcher, PatternType,
    ProcessingResult, ProcessingStats, Repository,
};
pub use services::IngestService;
pub use utils::{
    decode_file_content, file_name, format_file_size, is_binary_file, normalize_pattern,
    CompiledMatcher, ContentChunk, ContentDecision, ContentWriter, DirectoryRecord, FetchAction, FetchScheduler,
    FileService, GitService, ParsedUrl, PatternService, ScanPlan, TextEncoding, UrlParser,
    WalkEntry,
};
