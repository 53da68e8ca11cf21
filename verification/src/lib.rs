//! Verified core of the KDJ local server.

pub mod activity;
pub mod analysis;
pub mod anlz;
pub mod auth;
pub mod covers;
pub mod diagnostics;
pub mod download_journal;
pub mod download_laws;
pub mod download_orders;
pub mod download_queue;
pub mod download_runs;
pub mod downloads;
pub mod duplicate_laws;
pub mod duplicates;
pub mod error;
pub mod folder_laws;
pub mod folder_merge;
pub mod folder_ops;
pub mod folder_undo;
pub mod ids;
pub mod jobs;
pub mod json;
pub mod library_roots;
pub mod library_watch;
pub mod lyric_laws;
pub mod lyric_lookup;
pub mod lyrics;
pub mod media_files;
pub mod media_spool;
pub mod models;
pub mod one_library_analysis;
pub mod one_library_laws;
pub mod one_library_sync;
pub mod order_laws;
pub mod path_laws;
pub mod paths;
pub mod preview_cache;
pub mod preview_laws;
pub mod preview_policy;
pub mod preview_requests;
pub mod preview_stream;
pub mod protected_media;
pub mod range_laws;
pub mod ranges;
pub mod request_laws;
pub mod requests;
pub mod rhythm;
pub mod run_laws;
pub mod service_laws;
pub mod sync_laws;
pub mod table;
pub mod text;
pub mod text_laws;
pub mod tickets;
pub mod urls;
pub mod video_requests;
pub mod watch_laws;
pub mod work_laws;
pub mod ytm;
