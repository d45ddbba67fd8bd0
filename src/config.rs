//! Configuration sections that the pipeline reads as plain values.
use vstd::prelude::*;

verus! {

/// The chat frontend's settings.
#[derive(Clone, Debug)]
pub struct TelegramConfig {
    pub bot_token: String,
    pub poll_interval: u64,
}

/// Which transcription backend to use, and how.
#[derive(Clone, Debug)]
pub struct TranscriptionConfig {
    pub provider: String,
    pub language: String,
    pub model_path: Option<String>,
    pub api_key_env: Option<String>,
    pub model: Option<String>,
}

/// The language model endpoint.
#[derive(Clone, Debug)]
pub struct AiModelConfig {
    pub provider: String,
    pub model: String,
    pub endpoint: String,
}

/// Where notes, tasks and temporary files go.
#[derive(Clone, Debug)]
pub struct OutputConfig {
    pub notes_dir: String,
    pub tasks_dir: String,
    pub temp_dir: String,
}

/// Feature switches and limits.
#[derive(Clone, Debug)]
pub struct FeaturesConfig {
    pub enable_task_extraction: bool,
    pub enable_auto_tags: bool,
    pub max_audio_size_mb: u64,
}

/// Logging settings.
#[derive(Clone, Debug)]
pub struct LoggingConfig {
    pub level: String,
    pub log_file: String,
}

/// The value of a switch that the configuration leaves out.
pub fn default_true() -> (r: bool)
    ensures
        r,
{
    true
}

} // verus!
