//! Clients of the language models named in the configuration.
use vstd::prelude::*;
use crate::config::{Config, LlmConfig};
use crate::text::{contains, contains_seq, str_eq};

pub mod response;

verus! {

/// What a client answers to a prompt.
pub trait LlmClient {
    /// The completion of `prompt`.
    fn complete(&self, prompt: &str) -> Result<String, String>;
}

/// A client that answers from canned replies, for tests.
#[derive(Debug)]
pub struct MockLlmClient;

/// The canned reply of the mock client to a request to claim task `#a7b3c9d2`.
pub open spec fn mock_claim_reply() -> Seq<char> {
    "我将认领任务 #a7b3c9d2。\n\n<tool_call>{ \"name\": \"task_claim\", \"params\": { \"task_id\": \"a7b3c9d2\", \"agent_id\": \"executor\" } }</tool_call>"@
}

/// The canned reply of the mock client to any other prompt.
pub open spec fn mock_default_reply() -> Seq<char> {
    "收到消息，正在处理中..."@
}

/// The mock client's reply to `prompt`: the claim reply when the prompt asks
/// to claim a task (in Chinese or English) and names task `#a7b3c9d2`, the
/// default reply otherwise.
pub open spec fn mock_reply(prompt: Seq<char>) -> Seq<char> {
    if (contains_seq(prompt, "认领任务"@) || contains_seq(prompt, "claim task"@)) && contains_seq(prompt, "#a7b3c9d2"@) {
        mock_claim_reply()
    } else {
        mock_default_reply()
    }
}

impl MockLlmClient {
    /// The canned reply to `prompt` (see `mock_reply`); it never fails.
    pub fn complete(&self, prompt: &str) -> (r: Result<String, String>)
        ensures
            r matches Ok(s) && s@ == mock_reply(prompt@),
    {
        if (contains(prompt, "认领任务") || contains(prompt, "claim task")) && contains(prompt, "#a7b3c9d2") {
            return Ok(
                "我将认领任务 #a7b3c9d2。\n\n<tool_call>{ \"name\": \"task_claim\", \"params\": { \"task_id\": \"a7b3c9d2\", \"agent_id\": \"executor\" } }</tool_call>".to_owned(),
            );
        }
        Ok("收到消息，正在处理中...".to_owned())
    }
}

impl LlmClient for MockLlmClient {
    fn complete(&self, prompt: &str) -> (r: Result<String, String>)
        ensures
            r matches Ok(t) && t@ == mock_reply(prompt@),
    {
        MockLlmClient::complete(self, prompt)
    }
}

/// A client of the Anthropic API. Completions are answered as the mock
/// client answers them.
#[derive(Debug)]
pub struct AnthropicClient {
    api_key: String,
    base_url: String,
    model: String,
}

pub struct ProviderClientView {
    pub api_key: Seq<char>,
    pub base_url: Seq<char>,
    pub model: Seq<char>,
}

impl View for AnthropicClient {
    type V = ProviderClientView;

    closed spec fn view(&self) -> ProviderClientView {
        ProviderClientView { api_key: self.api_key@, base_url: self.base_url@, model: self.model@ }
    }
}

impl AnthropicClient {
    /// A client with the given key, API and model.
    pub fn new(api_key: String, base_url: String, model: String) -> (c: Self)
        ensures
            c@ == (ProviderClientView { api_key: api_key@, base_url: base_url@, model: model@ }),
    {
        AnthropicClient { api_key, base_url, model }
    }

    /// The completion of `prompt` (see `mock_reply`).
    pub fn complete(&self, prompt: &str) -> (r: Result<String, String>)
        ensures
            r matches Ok(s) && s@ == mock_reply(prompt@),
    {
        MockLlmClient.complete(prompt)
    }
}

impl LlmClient for AnthropicClient {
    fn complete(&self, prompt: &str) -> (r: Result<String, String>)
        ensures
            r matches Ok(t) && t@ == mock_reply(prompt@),
    {
        AnthropicClient::complete(self, prompt)
    }
}

/// A client of the OpenAI API. Completions are answered as the mock client
/// answers them.
#[derive(Debug)]
pub struct OpenAiClient {
    api_key: String,
    base_url: String,
    model: String,
}

impl View for OpenAiClient {
    type V = ProviderClientView;

    closed spec fn view(&self) -> ProviderClientView {
        ProviderClientView { api_key: self.api_key@, base_url: self.base_url@, model: self.model@ }
    }
}

impl OpenAiClient {
    /// A client with the given key, API and model.
    pub fn new(api_key: String, base_url: String, model: String) -> (c: Self)
        ensures
            c@ == (ProviderClientView { api_key: api_key@, base_url: base_url@, model: model@ }),
    {
        OpenAiClient { api_key, base_url, model }
    }

    /// The completion of `prompt` (see `mock_reply`).
    pub fn complete(&self, prompt: &str) -> (r: Result<String, String>)
        ensures
            r matches Ok(s) && s@ == mock_reply(prompt@),
    {
        MockLlmClient.complete(prompt)
    }
}

impl LlmClient for OpenAiClient {
    fn complete(&self, prompt: &str) -> (r: Result<String, String>)
        ensures
            r matches Ok(t) && t@ == mock_reply(prompt@),
    {
        OpenAiClient::complete(self, prompt)
    }
}

/// A client of one of the providers.
#[derive(Debug)]
pub enum AnyLlmClient {
    Anthropic(AnthropicClient),
    OpenAi(OpenAiClient),
    Mock(MockLlmClient),
}

pub enum AnyLlmClientView {
    Anthropic(ProviderClientView),
    OpenAi(ProviderClientView),
    Mock,
}

impl View for AnyLlmClient {
    type V = AnyLlmClientView;

    open spec fn view(&self) -> AnyLlmClientView {
        match self {
            AnyLlmClient::Anthropic(c) => AnyLlmClientView::Anthropic(c@),
            AnyLlmClient::OpenAi(c) => AnyLlmClientView::OpenAi(c@),
            AnyLlmClient::Mock(_) => AnyLlmClientView::Mock,
        }
    }
}

impl LlmClient for AnyLlmClient {
    /// Every provider's client answers as the mock client does (see `mock_reply`).
    fn complete(&self, prompt: &str) -> (r: Result<String, String>)
        ensures
            r matches Ok(t) && t@ == mock_reply(prompt@),
    {
        match self {
            AnyLlmClient::Anthropic(c) => AnthropicClient::complete(c, prompt),
            AnyLlmClient::OpenAi(c) => OpenAiClient::complete(c, prompt),
            AnyLlmClient::Mock(c) => MockLlmClient::complete(c, prompt),
        }
    }
}

/// The client that a model's configuration calls for: Anthropic when it
/// configures Anthropic, else OpenAI when it configures OpenAI, else the mock.
pub open spec fn client_for(c: LlmConfig) -> AnyLlmClientView {
    match c.anthropic {
        Some(a) => AnyLlmClientView::Anthropic(
            ProviderClientView { api_key: a.token@, base_url: a.base_url@, model: c.model@ },
        ),
        None => match c.openai {
            Some(o) => AnyLlmClientView::OpenAi(
                ProviderClientView { api_key: o.token@, base_url: o.base_url@, model: c.model@ },
            ),
            None => AnyLlmClientView::Mock,
        },
    }
}

/// `m` with `name` bound to `c`: its entry replaced in place, or appended.
pub open spec fn bind_client(m: Seq<(Seq<char>, AnyLlmClientView)>, name: Seq<char>, c: AnyLlmClientView) -> Seq<
    (Seq<char>, AnyLlmClientView),
> {
    if exists|i: int| 0 <= i < m.len() && m[i].0 == name {
        m.update(choose|i: int| 0 <= i < m.len() && m[i].0 == name, (name, c))
    } else {
        m.push((name, c))
    }
}

/// The clients of the models `llms`, bound by name in order: a later model
/// of a name takes the place of an earlier one.
pub open spec fn clients_of(llms: Seq<LlmConfig>) -> Seq<(Seq<char>, AnyLlmClientView)>
    decreases llms.len(),
{
    if llms.len() == 0 {
        Seq::empty()
    } else {
        bind_client(clients_of(llms.drop_last()), llms.last().name@, client_for(llms.last()))
    }
}

/// Views of a list of named clients.
pub open spec fn named_clients_view(v: Seq<(String, AnyLlmClient)>) -> Seq<(Seq<char>, AnyLlmClientView)> {
    v.map_values(|e: (String, AnyLlmClient)| (e.0@, e.1@))
}

/// No name occurs twice.
pub open spec fn distinct_names(m: Seq<(Seq<char>, AnyLlmClientView)>) -> bool {
    forall|i: int, j: int| 0 <= i < m.len() && 0 <= j < m.len() && i != j ==> m[i].0 != m[j].0
}

fn client_index(clients: &Vec<(String, AnyLlmClient)>, name: &str) -> (r: Option<usize>)
    ensures
        match r {
            Some(p) => p < clients@.len() && named_clients_view(clients@)[p as int].0 == name@,
            None => forall|j: int| 0 <= j < clients@.len() ==> named_clients_view(clients@)[j].0 != name@,
        },
{
    let mut k: usize = 0;
    while k < clients.len()
        invariant
            k <= clients@.len(),
            forall|j: int| 0 <= j < k ==> named_clients_view(clients@)[j].0 != name@,
        decreases clients@.len() - k,
    {
        if str_eq(clients[k].0.as_str(), name) {
            return Some(k);
        }
        k = k + 1;
    }
    None
}

fn make_client(c: &LlmConfig) -> (r: AnyLlmClient)
    ensures
        r@ == client_for(*c),
{
    match &c.anthropic {
        Some(a) => AnyLlmClient::Anthropic(AnthropicClient::new(a.token.clone(), a.base_url.clone(), c.model.clone())),
        None => match &c.openai {
            Some(o) => AnyLlmClient::OpenAi(OpenAiClient::new(o.token.clone(), o.base_url.clone(), c.model.clone())),
            None => AnyLlmClient::Mock(MockLlmClient),
        },
    }
}

/// The clients of the models of `config`, one per name (see `clients_of`).
pub fn create_llm_clients(config: &Config) -> (r: Result<Vec<(String, AnyLlmClient)>, String>)
    ensures
        r matches Ok(v) && named_clients_view(v@) == clients_of(config.llms@) && distinct_names(named_clients_view(v@)),
{
    let mut clients: Vec<(String, AnyLlmClient)> = Vec::new();
    let mut i: usize = 0;
    proof {
        assert(named_clients_view(clients@) =~= clients_of(config.llms@.take(0)));
    }
    while i < config.llms.len()
        invariant
            i <= config.llms@.len(),
            named_clients_view(clients@) == clients_of(config.llms@.take(i as int)),
            distinct_names(named_clients_view(clients@)),
        decreases config.llms@.len() - i,
    {
        let c = &config.llms[i];
        let client = make_client(c);
        let ghost m = named_clients_view(clients@);
        let ghost cv = client@;
        proof {
            assert(config.llms@.take(i + 1).drop_last() =~= config.llms@.take(i as int));
            assert(config.llms@.take(i + 1).last() == *c);
        }
        let found = client_index(&clients, c.name.as_str());
        match found {
            Some(p) => {
                proof {
                    assert(m[p as int].0 == c.name@);
                    let q = choose|q: int| 0 <= q < m.len() && m[q].0 == c.name@;
                    assert(q == p);
                }
                clients.set(p, (c.name.clone(), client));
                proof {
                    assert(named_clients_view(clients@) =~= bind_client(m, c.name@, cv));
                }
            },
            None => {
                proof {
                    assert(!(exists|j: int| 0 <= j < m.len() && m[j].0 == c.name@));
                }
                clients.push((c.name.clone(), client));
                proof {
                    assert(named_clients_view(clients@) =~= bind_client(m, c.name@, cv));
                }
            },
        }
        i = i + 1;
    }
    proof {
        assert(config.llms@.take(config.llms@.len() as int) =~= config.llms@);
    }
    Ok(clients)
}

} // verus!
