//! Choice of the transcription backend from its configuration.
use vstd::prelude::*;
use crate::config::TranscriptionConfig;

verus! {

/// Whether `s` holds the characters of `lit`.
pub fn is_named(s: &String, lit: &str) -> (r: bool)
    ensures
        r == (s@ == lit@),
{
    let t = lit.to_owned();
    *s == t
}

/// Transcription with a local whisper model.
#[derive(Clone, Debug)]
pub struct WhisperLocalProvider {
    model_path: String,
    language: String,
}

impl WhisperLocalProvider {
    pub closed spec fn spec_model_path(&self) -> Seq<char> {
        self.model_path@
    }

    pub closed spec fn spec_language(&self) -> Seq<char> {
        self.language@
    }

    pub fn new(model_path: String, language: String) -> (r: WhisperLocalProvider)
        ensures
            r.spec_model_path() == model_path@,
            r.spec_language() == language@,
    {
        WhisperLocalProvider { model_path, language }
    }

    pub fn model_path(&self) -> (r: &String)
        ensures
            r@ == self.spec_model_path(),
    {
        &self.model_path
    }

    pub fn language(&self) -> (r: &String)
        ensures
            r@ == self.spec_language(),
    {
        &self.language
    }
}

/// Transcription through the hosted Groq API.
#[derive(Clone, Debug)]
pub struct GroqProvider {
    api_key: String,
    model: String,
    language: String,
}

impl GroqProvider {
    pub closed spec fn spec_api_key(&self) -> Seq<char> {
        self.api_key@
    }

    pub closed spec fn spec_model(&self) -> Seq<char> {
        self.model@
    }

    pub closed spec fn spec_language(&self) -> Seq<char> {
        self.language@
    }

    pub fn new(api_key: String, model: String, language: String) -> (r: GroqProvider)
        ensures
            r.spec_api_key() == api_key@,
            r.spec_model() == model@,
            r.spec_language() == language@,
    {
        GroqProvider { api_key, model, language }
    }

    pub fn api_key(&self) -> (r: &String)
        ensures
            r@ == self.spec_api_key(),
    {
        &self.api_key
    }

    pub fn model(&self) -> (r: &String)
        ensures
            r@ == self.spec_model(),
    {
        &self.model
    }

    pub fn language(&self) -> (r: &String)
        ensures
            r@ == self.spec_language(),
    {
        &self.language
    }
}

/// The backend that a configuration asks for. For Groq the API key is still
/// to be read from the named environment variable.
pub enum ProviderPlan {
    WhisperLocal(WhisperLocalProvider),
    Groq { api_key_env: String, model: String, language: String },
}

/// Why a configuration names no usable backend.
#[derive(Clone, Debug, PartialEq, Eq)]
pub enum ProviderError {
    /// The local backend was chosen without a model path.
    MissingModelPath,
    /// The provider name is not known.
    UnknownProvider(String),
}

impl ProviderError {
    /// The message shown for this error.
    pub fn message(&self) -> (r: String)
        ensures
            *self == ProviderError::MissingModelPath ==> r@
                == "model_path is required for whisper_local provider"@,
            self matches ProviderError::UnknownProvider(name) ==> r@
                == "Unknown transcription provider: '"@ + name@ + "'. Use 'whisper_local' or 'groq'."@,
    {
        match self {
            ProviderError::MissingModelPath => "model_path is required for whisper_local provider".to_owned(),
            ProviderError::UnknownProvider(name) => {
                let mut m = "Unknown transcription provider: '".to_owned();
                m.append(name.as_str());
                m.append("'. Use 'whisper_local' or 'groq'.");
                m
            },
        }
    }
}

/// The environment variable that holds the Groq key when none is named.
pub const DEFAULT_GROQ_KEY_ENV: &'static str = "GROQ_API_KEY";

/// The Groq model used when none is named.
pub const DEFAULT_GROQ_MODEL: &'static str = "whisper-large-v3-turbo";

/// Chooses the transcription backend: `whisper_local` needs a model path;
/// `groq` takes the key's variable and the model from the configuration or
/// their defaults; any other name is refused.
pub fn create_transcription_provider(config: &TranscriptionConfig) -> (r: Result<
    ProviderPlan,
    ProviderError,
>)
    ensures
        config.provider@ == "whisper_local"@ ==> match config.model_path {
            Some(p) => (r matches Ok(ProviderPlan::WhisperLocal(w)) && w.spec_model_path() == p@
                && w.spec_language() == config.language@),
            None => r == Err::<ProviderPlan, ProviderError>(ProviderError::MissingModelPath),
        },
        config.provider@ == "groq"@ ==> (r matches Ok(
            ProviderPlan::Groq { api_key_env, model, language },
        ) && api_key_env@ == (match config.api_key_env {
            Some(e) => e@,
            None => DEFAULT_GROQ_KEY_ENV@,
        }) && model@ == (match config.model {
            Some(m) => m@,
            None => DEFAULT_GROQ_MODEL@,
        }) && language@ == config.language@),
        config.provider@ != "whisper_local"@ && config.provider@ != "groq"@ ==> (r matches Err(
            ProviderError::UnknownProvider(name),
        ) && name@ == config.provider@),
{
    proof {
        reveal_strlit("groq");
        reveal_strlit("whisper_local");
        assert("groq"@ != "whisper_local"@) by {
            assert("groq"@.len() != "whisper_local"@.len());
        }
    }
    if is_named(&config.provider, "whisper_local") {
        match &config.model_path {
            Some(p) => Ok(
                ProviderPlan::WhisperLocal(
                    WhisperLocalProvider::new(p.clone(), config.language.clone()),
                ),
            ),
            None => Err(ProviderError::MissingModelPath),
        }
    } else if is_named(&config.provider, "groq") {
        let api_key_env = match &config.api_key_env {
            Some(e) => e.clone(),
            None => DEFAULT_GROQ_KEY_ENV.to_owned(),
        };
        let model = match &config.model {
            Some(m) => m.clone(),
            None => DEFAULT_GROQ_MODEL.to_owned(),
        };
        Ok(ProviderPlan::Groq { api_key_env, model, language: config.language.clone() })
    } else {
        Err(ProviderError::UnknownProvider(config.provider.clone()))
    }
}

} // verus!
