//! Configuration of the agents, language models, channels and bindings.
use vstd::prelude::*;
use crate::message::clone_opt_string;
use crate::text::{ends_with, starts_with};

verus! {

/// The whole configuration.
#[derive(Debug)]
pub struct Config {
    pub llms: Vec<LlmConfig>,
    pub agents: Vec<AgentConfig>,
    pub channels: Vec<ChannelConfig>,
    pub bindings: Vec<BindingConfig>,
    pub storage: Option<StorageConfig>,
}

/// Where the data is stored.
#[derive(Debug)]
pub struct StorageConfig {
    pub database_url: Option<String>,
}

/// The database used when the configuration names none.
pub open spec fn default_database_url() -> Seq<char> {
    "workspace/storage/xcraw.db"@
}

impl Config {
    /// The database URL of the configuration, or the default one.
    pub fn database_url(&self) -> (r: String)
        ensures
            r@ == match self.storage {
                Some(s) => match s.database_url {
                    Some(u) => u@,
                    None => default_database_url(),
                },
                None => default_database_url(),
            },
    {
        match &self.storage {
            Some(s) => match &s.database_url {
                Some(u) => u.clone(),
                None => "workspace/storage/xcraw.db".to_owned(),
            },
            None => "workspace/storage/xcraw.db".to_owned(),
        }
    }
}

/// A language model: by name, with the provider that serves it.
#[derive(Debug)]
pub struct LlmConfig {
    pub name: String,
    pub anthropic: Option<AnthropicConfig>,
    pub openai: Option<OpenAiConfig>,
    pub model: String,
}

/// Access to the Anthropic API.
#[derive(Debug)]
pub struct AnthropicConfig {
    pub token: String,
    pub base_url: String,
}

/// Access to the OpenAI API.
#[derive(Debug)]
pub struct OpenAiConfig {
    pub token: String,
    pub base_url: String,
}

/// An agent: its model, tools and skills.
#[derive(Debug)]
pub struct AgentConfig {
    pub name: String,
    pub llm: String,
    pub default_tools: bool,
    pub tools: Vec<String>,
    pub default_skills: bool,
    pub skills: Vec<String>,
}

/// A channel: its name, its type and the token it connects with.
#[derive(Debug)]
pub struct ChannelConfig {
    pub name: String,
    pub channel_type: String,
    pub token: String,
}

/// A chat room and the bindings in it.
#[derive(Debug)]
pub struct ChatRoomConfig {
    pub room_type: String,
    pub bindings: Vec<BindingConfig>,
}

/// A binding of an agent to a channel.
#[derive(Debug)]
pub struct BindingConfig {
    pub binding_id: String,
    pub agent: String,
    pub channel: String,
    pub require_mention: bool,
}

/// The identifier of a binding: the configured one, or `agent@channel`
/// when none is configured.
pub open spec fn binding_id_of(binding_id: Seq<char>, agent: Seq<char>, channel: Seq<char>) -> Seq<char> {
    if binding_id.len() == 0 {
        agent + "@"@ + channel
    } else {
        binding_id
    }
}

impl BindingConfig {
    /// The identifier a binding gets when the configuration gives none: empty,
    /// so that `get_binding_id` derives it.
    pub fn default_binding_id() -> (r: String)
        ensures
            r@ == Seq::<char>::empty(),
    {
        String::new()
    }

    /// The effective identifier of this binding (see `binding_id_of`).
    pub fn get_binding_id(&self) -> (r: String)
        ensures
            r@ == binding_id_of(self.binding_id@, self.agent@, self.channel@),
    {
        if self.binding_id.as_str().is_empty() {
            let mut r = self.agent.clone();
            r.append("@");
            r.append(self.channel.as_str());
            r
        } else {
            self.binding_id.clone()
        }
    }
}

/// `true`, for flags that default to on.
pub fn default_true() -> (b: bool)
    ensures
        b,
{
    true
}

/// `false`, for flags that default to off.
pub fn default_false() -> (b: bool)
    ensures
        !b,
{
    false
}

/// The Anthropic API used when the configuration names none.
pub open spec fn anthropic_url() -> Seq<char> {
    "https://api.anthropic.com"@
}

/// The OpenAI API used when the configuration names none.
pub open spec fn openai_url() -> Seq<char> {
    "https://api.openai.com"@
}

/// The default Anthropic API.
pub fn default_anthropic_url() -> (r: String)
    ensures
        r@ == anthropic_url(),
{
    "https://api.anthropic.com".to_owned()
}

/// The default OpenAI API.
pub fn default_openai_url() -> (r: String)
    ensures
        r@ == openai_url(),
{
    "https://api.openai.com".to_owned()
}

/// The variable that a token of the form `${NAME}` names.
pub open spec fn env_placeholder_spec(token: Seq<char>) -> Option<Seq<char>> {
    if token.len() >= 3 && token.take(2) == "${"@ && token.last() == '}' {
        Some(token.subrange(2, token.len() - 1))
    } else {
        None
    }
}

/// The name of the environment variable that the token `${NAME}` stands
/// for; `None` for a token written out.
pub fn env_placeholder(token: &str) -> (r: Option<String>)
    ensures
        r.deep_view() == env_placeholder_spec(token@),
{
    proof {
        reveal_strlit("${");
        reveal_strlit("}");
    }
    let n = token.unicode_len();
    if starts_with(token, "${") && ends_with(token, "}") && n >= 3 {
        proof {
            assert(token@.take(2) =~= "${"@);
            assert(token@.subrange(n - 1, n as int) =~= "}"@);
            assert(token@.last() == token@.subrange(n - 1, n as int)[0]);
        }
        Some(token.substring_char(2, n - 1).to_owned())
    } else {
        proof {
            if n >= 3 && token@.take(2) == "${"@ && token@.last() == '}' {
                assert(token@.subrange(0, 2) =~= token@.take(2));
                assert(token@.subrange(n - 1, n as int) =~= "}"@);
            }
        }
        None
    }
}

} // verus!
