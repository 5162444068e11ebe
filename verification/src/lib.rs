use vstd::prelude::*;

pub mod text;
pub mod calendar;
pub mod audio_clip;
pub mod markdown;
pub mod meeting_note;
pub mod meeting_refs;
pub mod ref_law;
pub mod line_laws;
pub mod transcript_law;
pub mod minutes_law;
pub mod process;
pub mod minutes_run;
pub mod extraction;
pub mod limiter_law;
pub mod chunk_law;
pub mod render_law;
pub mod skeleton_law;
pub mod graph;
pub mod minutes;
pub mod audio;
pub mod chunk;
pub mod webview;
pub mod rate_limit;
pub mod models;
pub mod transcribe;
pub mod secret;
pub mod notes;
pub mod meetings;
pub mod qa;
pub mod retrieval;
pub mod vectors;

verus! {
} // verus!
