//! A verified core for a local-LLM chat backend: document chunking,
//! similarity ranking and retrieval-augmented prompt construction, shell
//! command planning for the inference binary, and the marker-based capture
//! state machine that filters raw terminal output into clean answer segments.

pub mod analysis;
pub mod bridge;
pub mod capture;
pub mod capture_laws;
pub mod chunker;
pub mod command;
pub mod engine;
pub mod history;
pub mod pdf;
pub mod prompts;
pub mod ranker;
pub mod setup;
pub mod similarity;
pub mod text;

pub use analysis::max_subarray_sum;
pub use bridge::{JobOutcome, JobStatus, Session};
pub use capture::{find_sub, strip_ansi, CaptureState};
pub use chunker::{chunk_next_start, chunk_spans, chunk_window_end};
pub use command::{
    build_command, filter_gguf, find_first_gguf_file, find_gguf_emmodel, find_gguf_model,
    normalize_path, plan_job, ConstructError, JobDecision, JobRequest, ModelState, Platform,
    ShellCommand,
};
pub use engine::{
    chunk_text_with, health_retry_decision, truncate_for_embedding, Chunk, RagError, RagProcessor,
    RetryAction, ScanPhase, SourceDocument,
};
pub use history::{Chat, Message};
pub use pdf::extract_text_from_pdf;
pub use prompts::{create_json_prompt, create_list_prompt, create_structured_prompt};
pub use ranker::rank_indices;
pub use setup::{
    choose_windows_binary, download_percentage, get_download_url, progress_report,
    DownloadProgress, WindowsBinary,
};
pub use similarity::{cosine_similarity, sim_cmp, SimOrd, Similarity};
pub use text::{escape_quotes, i64_to_string, join_words, u64_to_string};
