//! Embedding-backend configuration: the persisted provider record, its
//! defaults, backend selection, and the cloud backend's default
//! substitution rules. The network adapters themselves live outside the
//! library and receive these resolved settings.

use vstd::prelude::*;
use vstd::string::StrSliceExecFns;
use crate::text::str_eq;

verus! {

/// The persisted embedding configuration.
pub struct ProviderConfig {
    pub provider: String,
    pub base_url: String,
    pub model: String,
    pub dimensions: usize,
    pub aws_region: Option<String>,
    pub aws_profile: Option<String>,
}

/// The default local-inference base URL.
pub fn default_base_url() -> (r: String)
    ensures
        r@ == "http://localhost:11434"@,
{
    "http://localhost:11434".to_owned()
}

/// The default embedding model.
pub fn default_model() -> (r: String)
    ensures
        r@ == "nomic-embed-text"@,
{
    "nomic-embed-text".to_owned()
}

/// The default embedding dimensionality.
pub fn default_dimensions() -> (r: usize)
    ensures
        r == 768,
{
    768
}

impl Default for ProviderConfig {
    /// The default configuration: local inference with the default model
    /// and dimensionality, no cloud settings.
    fn default() -> (r: ProviderConfig)
        ensures
            r.provider@ == "ollama"@,
            r.base_url@ == "http://localhost:11434"@,
            r.model@ == "nomic-embed-text"@,
            r.dimensions == 768,
            r.aws_region is None,
            r.aws_profile is None,
    {
        ProviderConfig {
            provider: "ollama".to_owned(),
            base_url: default_base_url(),
            model: default_model(),
            dimensions: default_dimensions(),
            aws_region: None,
            aws_profile: None,
        }
    }
}

/// Which embedding backend a configuration selects.
#[derive(Debug)]
pub enum ProviderKind {
    Ollama,
    Bedrock,
}

/// Select a backend from the configuration's provider name; unknown names
/// are rejected.
pub fn resolve_provider(config: &ProviderConfig) -> (r: Result<ProviderKind, String>)
    ensures
        config.provider@ == "ollama"@ ==> r == Result::<ProviderKind, String>::Ok(
            ProviderKind::Ollama,
        ),
        config.provider@ == "bedrock"@ ==> r == Result::<ProviderKind, String>::Ok(
            ProviderKind::Bedrock,
        ),
        config.provider@ != "ollama"@ && config.provider@ != "bedrock"@ ==> r is Err,
{
    proof {
        reveal_strlit("ollama");
        reveal_strlit("bedrock");
        assert("ollama"@.len() == 6);
        assert("bedrock"@.len() == 7);
        assert("ollama"@ != "bedrock"@);
    }
    if str_eq(config.provider.as_str(), "ollama") {
        Ok(ProviderKind::Ollama)
    } else if str_eq(config.provider.as_str(), "bedrock") {
        Ok(ProviderKind::Bedrock)
    } else {
        let mut msg = "Unknown embedding provider: ".to_owned();
        msg.append(config.provider.as_str());
        Err(msg)
    }
}

/// `s` with every trailing occurrence of `c` removed.
pub open spec fn trimmed_end(s: Seq<char>, c: char) -> Seq<char>
    decreases s.len(),
{
    if s.len() > 0 && s[s.len() - 1] == c {
        trimmed_end(s.take(s.len() - 1), c)
    } else {
        s
    }
}

/// Remove every trailing occurrence of `c` from `s`; used to normalise a
/// configured base URL before paths are appended to it.
pub fn trim_trailing(s: &str, c: char) -> (r: String)
    ensures
        r@ == trimmed_end(s@, c),
{
    let n = s.unicode_len();
    let mut hi: usize = n;
    while hi > 0 && s.get_char(hi - 1) == c
        invariant
            0 <= hi <= n == s@.len(),
            forall|k: int| hi <= k < n ==> s@[k] == c,
        decreases hi,
    {
        hi = hi - 1;
    }
    let r = s.substring_char(0, hi).to_owned();
    proof {
        lemma_trimmed_end_bound(s@, c, hi as int);
        assert(s@.subrange(0, hi as int) =~= s@.take(hi as int));
    }
    r
}

proof fn lemma_trimmed_end_bound(s: Seq<char>, c: char, hi: int)
    requires
        0 <= hi <= s.len(),
        forall|k: int| hi <= k < s.len() ==> s[k] == c,
        hi > 0 ==> s[hi - 1] != c,
    ensures
        trimmed_end(s, c) == s.take(hi),
    decreases s.len(),
{
    if hi < s.len() {
        assert(s[s.len() - 1] == c);
        lemma_trimmed_end_bound(s.take(s.len() - 1), c, hi);
        assert(s.take(s.len() - 1).take(hi) =~= s.take(hi));
    } else {
        if s.len() > 0 {
            assert(s[s.len() - 1] != c);
        }
        assert(s.take(s.len() as int) =~= s);
    }
}

/// The settings the local-inference adapter runs with: the base URL with
/// trailing slashes removed, the model, and the dimensionality.
pub fn ollama_settings(config: &ProviderConfig) -> (r: (String, String, usize))
    ensures
        r.0@ == trimmed_end(config.base_url@, '/'),
        r.1@ == config.model@,
        r.2 == config.dimensions,
{
    (trim_trailing(config.base_url.as_str(), '/'), config.model.clone(), config.dimensions)
}

/// The cloud backend's resolved settings. Built by
/// [`BedrockProvider::new`], which substitutes the cloud-native model and
/// dimensionality where the configuration still holds the local defaults.
pub struct BedrockProvider {
    pub model: String,
    pub dimensions: usize,
    pub region: String,
    pub profile: Option<String>,
}

impl BedrockProvider {
    /// Resolve the cloud backend's settings: a configuration left at the
    /// default model gets the cloud-native model, the default
    /// dimensionality becomes 1024, and the region falls back to
    /// `us-east-1`.
    pub fn new(config: &ProviderConfig) -> (r: BedrockProvider)
        ensures
            r.model@ == (if config.model@ == "nomic-embed-text"@ {
                "amazon.titan-embed-text-v2:0"@
            } else {
                config.model@
            }),
            r.dimensions == (if config.dimensions == 768 {
                1024int
            } else {
                config.dimensions as int
            }),
            r.region@ == (match config.aws_region {
                Some(reg) => reg@,
                None => "us-east-1"@,
            }),
            r.profile == config.aws_profile,
    {
        let model = if str_eq(config.model.as_str(), "nomic-embed-text") {
            "amazon.titan-embed-text-v2:0".to_owned()
        } else {
            config.model.clone()
        };
        let dimensions = if config.dimensions == 768 {
            1024
        } else {
            config.dimensions
        };
        let region = match &config.aws_region {
            Some(reg) => reg.clone(),
            None => "us-east-1".to_owned(),
        };
        let profile = match &config.aws_profile {
            Some(p) => Some(p.clone()),
            None => None,
        };
        BedrockProvider { model, dimensions, region, profile }
    }
}

} // verus!
