//! The canister's plain record shapes: character sheets, agent state,
//! inference configuration, message records, key-derivation records, and
//! the fixed collection names.

use vstd::prelude::*;
use vstd::string::StringExecFns;

verus! {

/// The fixed collection names of the document store.
#[allow(non_camel_case_types)]
pub struct COLLECTIONS;

impl COLLECTIONS {
    /// The `agents` collection.
    pub fn agents() -> (r: &'static str)
        ensures
            r@ == "agents"@,
    {
        "agents"
    }

    /// The `entities` collection.
    pub fn entities() -> (r: &'static str)
        ensures
            r@ == "entities"@,
    {
        "entities"
    }

    /// The `memories` collection.
    pub fn memories() -> (r: &'static str)
        ensures
            r@ == "memories"@,
    {
        "memories"
    }

    /// The `rooms` collection.
    pub fn rooms() -> (r: &'static str)
        ensures
            r@ == "rooms"@,
    {
        "rooms"
    }

    /// The `worlds` collection.
    pub fn worlds() -> (r: &'static str)
        ensures
            r@ == "worlds"@,
    {
        "worlds"
    }

    /// The `components` collection.
    pub fn components() -> (r: &'static str)
        ensures
            r@ == "components"@,
    {
        "components"
    }

    /// The `relationships` collection.
    pub fn relationships() -> (r: &'static str)
        ensures
            r@ == "relationships"@,
    {
        "relationships"
    }

    /// The `participants` collection.
    pub fn participants() -> (r: &'static str)
        ensures
            r@ == "participants"@,
    {
        "participants"
    }

    /// The `tasks` collection.
    pub fn tasks() -> (r: &'static str)
        ensures
            r@ == "tasks"@,
    {
        "tasks"
    }

    /// The `cache` collection.
    pub fn cache() -> (r: &'static str)
        ensures
            r@ == "cache"@,
    {
        "cache"
    }

    /// The `logs` collection.
    pub fn logs() -> (r: &'static str)
        ensures
            r@ == "logs"@,
    {
        "logs"
    }

    /// The `embeddings` collection.
    pub fn embeddings() -> (r: &'static str)
        ensures
            r@ == "embeddings"@,
    {
        "embeddings"
    }
}

/// A character sheet for the canister agent.
#[derive(Debug, Clone)]
pub struct CharacterConfig {
    pub name: String,
    pub bio: String,
    pub system: Option<String>,
    pub personality_traits: Vec<String>,
    pub knowledge_base: Vec<String>,
}

impl Default for CharacterConfig {
    /// The stock character sheet.
    fn default() -> (r: CharacterConfig)
        ensures
            r.name@ == "Eliza"@,
            r.system is Some,
            r.personality_traits@.len() == 4,
            r.knowledge_base@.len() == 0,
    {
        let mut personality_traits: Vec<String> = Vec::new();
        personality_traits.push(String::from_str("helpful"));
        personality_traits.push(String::from_str("knowledgeable"));
        personality_traits.push(String::from_str("friendly"));
        personality_traits.push(String::from_str("direct"));
        CharacterConfig {
            name: String::from_str("Eliza"),
            bio: String::from_str(
                "A helpful AI assistant running on the Internet Computer.",
            ),
            system: Some(
                String::from_str(
                    "You are Eliza, a helpful AI assistant. Give direct, substantive answers.",
                ),
            ),
            personality_traits,
            knowledge_base: Vec::new(),
        }
    }
}

/// The canister agent's running state.
#[derive(Debug, Clone)]
pub struct AgentState {
    pub agent_id: String,
    pub character: CharacterConfig,
    pub initialized: bool,
    pub created_at: u64,
    pub last_active: u64,
    pub message_count: u64,
}

impl AgentState {
    /// A freshly initialized agent, stamped with the host's clock.
    pub fn new(agent_id: String, character: CharacterConfig, now: u64) -> (r: AgentState)
        ensures
            r.agent_id@ == agent_id@,
            r.initialized,
            r.created_at == now,
            r.last_active == now,
            r.message_count == 0,
    {
        AgentState {
            agent_id,
            character,
            initialized: true,
            created_at: now,
            last_active: now,
            message_count: 0,
        }
    }
}

impl Default for AgentState {
    /// An uninitialized agent with the stock character sheet.
    fn default() -> (r: AgentState)
        ensures
            !r.initialized,
            r.created_at == 0,
            r.last_active == 0,
            r.message_count == 0,
    {
        AgentState {
            agent_id: String::new(),
            character: CharacterConfig::default(),
            initialized: false,
            created_at: 0,
            last_active: 0,
            message_count: 0,
        }
    }
}

/// The inference backend to answer with.
#[derive(Debug, Clone, PartialEq, Eq, Structural)]
pub enum InferenceMode {
    /// Pattern-based answers, fully on-chain.
    ElizaClassic,
    /// A remote completion API over HTTP outcalls.
    OpenAI,
    /// A language-model canister called on-chain.
    OnChainLLM,
    /// The network's managed language-model canister.
    DfinityLLM,
}

impl Default for InferenceMode {
    /// Pattern-based answers need no keys and are the default.
    fn default() -> (r: InferenceMode)
        ensures
            r == InferenceMode::ElizaClassic,
    {
        InferenceMode::ElizaClassic
    }
}

/// The models the managed language-model canister offers.
#[derive(Debug, Clone, PartialEq, Eq, Structural)]
pub enum DfinityLLMModel {
    Llama3_1_8B,
    Qwen3_32B,
    Llama4Scout,
}

impl Default for DfinityLLMModel {
    fn default() -> (r: DfinityLLMModel)
        ensures
            r == DfinityLLMModel::Llama3_1_8B,
    {
        DfinityLLMModel::Llama3_1_8B
    }
}

/// Configuration for the managed language-model canister.
#[derive(Debug, Clone)]
pub struct DfinityLLMConfig {
    pub model: DfinityLLMModel,
    pub system_prompt: Option<String>,
    pub enabled: bool,
}

impl Default for DfinityLLMConfig {
    /// The managed canister is free and on by default.
    fn default() -> (r: DfinityLLMConfig)
        ensures
            r.model == DfinityLLMModel::Llama3_1_8B,
            r.system_prompt is None,
            r.enabled,
    {
        DfinityLLMConfig { model: DfinityLLMModel::Llama3_1_8B, system_prompt: None, enabled: true }
    }
}

/// Which inference backends are reachable right now.
#[derive(Debug, Clone)]
pub struct InferenceStatus {
    pub current_mode: InferenceMode,
    pub eliza_classic_ready: bool,
    pub openai_configured: bool,
    pub onchain_llm_configured: bool,
    pub onchain_llm_canister_id: Option<String>,
    pub onchain_llm_model: Option<String>,
    pub dfinity_llm_enabled: bool,
    pub dfinity_llm_model: Option<String>,
}

/// One message of a remote chat-completion exchange.
#[derive(Debug, Clone)]
pub struct OpenAIChatMessage {
    pub role: String,
    pub content: String,
}

/// A remote chat-completion answer.
#[derive(Debug, Clone)]
pub struct OpenAIChatResponse {
    pub id: String,
    pub object: String,
    pub created: u64,
    pub model: String,
    pub choices: Vec<OpenAIChatChoice>,
    pub usage: Option<OpenAIUsage>,
}

/// One choice of a remote chat-completion answer.
#[derive(Debug, Clone)]
pub struct OpenAIChatChoice {
    pub index: u32,
    pub message: OpenAIChatMessage,
    pub finish_reason: Option<String>,
}

/// Token accounting of a remote chat-completion answer.
#[derive(Debug, Clone)]
pub struct OpenAIUsage {
    pub prompt_tokens: u32,
    pub completion_tokens: u32,
    pub total_tokens: u32,
}

/// What a derived key is for.
#[derive(Debug, Clone)]
pub struct VetKeyContext {
    pub purpose: String,
    pub domain: Option<String>,
}

/// A threshold-derived key, encrypted to the caller's transport key.
#[derive(Debug, Clone)]
pub struct EncryptedVetKey {
    pub encrypted_key: Vec<u8>,
    pub public_key: Vec<u8>,
    pub context: VetKeyContext,
}

/// The canister's health report.
#[derive(Debug, Clone)]
pub struct HealthStatus {
    pub status: String,
    pub agent_id: Option<String>,
    pub agent_name: Option<String>,
    pub initialized: bool,
    pub message_count: u64,
    pub memory_count: u64,
    pub uptime_ns: u64,
}

/// A message's free-form content.
#[derive(Debug, Clone)]
pub struct Content {
    pub text: Option<String>,
    pub thought: Option<String>,
    pub content_type: Option<String>,
    pub source: Option<String>,
}

impl Default for Content {
    fn default() -> (r: Content)
        ensures
            r.text is None,
            r.thought is None,
            r.content_type is None,
            r.source is None,
    {
        Content { text: None, thought: None, content_type: None, source: None }
    }
}

/// A typed memory record, as the conversation layer shapes it; similarity
/// is a fixed-point score scaled by [`crate::vector::SIM_SCALE`].
#[derive(Debug, Clone)]
pub struct Memory {
    pub id: Option<String>,
    pub entity_id: String,
    pub agent_id: Option<String>,
    pub room_id: String,
    pub content: Content,
    pub created_at: Option<i64>,
    pub world_id: Option<String>,
    pub unique: Option<bool>,
    pub similarity: Option<i64>,
}

impl Memory {
    /// A fresh message memory, under the id and clock the host supplies.
    pub fn message(entity_id: String, room_id: String, text: &str, id: String, now: i64) -> (r:
        Memory)
        ensures
            r.id == Some(id),
            r.entity_id@ == entity_id@,
            r.room_id@ == room_id@,
            r.content.text matches Some(t) && t@ == text@,
            r.created_at == Some(now),
            r.unique == Some(true),
            r.similarity is None,
    {
        Memory {
            id: Some(id),
            entity_id,
            agent_id: None,
            room_id,
            content: Content {
                text: Some(text.to_owned()),
                thought: None,
                content_type: None,
                source: None,
            },
            created_at: Some(now),
            world_id: None,
            unique: Some(true),
            similarity: None,
        }
    }
}

/// The chat lines a window of messages yields, oldest first: each message
/// holding text becomes a role tagged line, the role naming the agent's own
/// messages.
pub open spec fn lines_of(ms: Seq<Memory>, agent: Seq<char>) -> Seq<(Seq<char>, Seq<char>)>
    decreases ms.len(),
{
    if ms.len() == 0 {
        Seq::empty()
    } else {
        (match ms[0].content.text {
            Some(t) => seq![
                (
                    if ms[0].entity_id@ == agent {
                        "assistant"@
                    } else {
                        "user"@
                    },
                    t@,
                ),
            ],
            None => Seq::empty(),
        }) + lines_of(ms.skip(1), agent)
    }
}

/// The window a history call reads: the last `max` messages.
pub open spec fn window_start(len: int, max: int) -> int {
    if len <= max {
        0
    } else {
        len - max
    }
}

/// Build the chat lines of the last `max_messages` messages, oldest first:
/// messages without text are passed over, and the agent's own messages are
/// tagged `assistant`, all others `user`.
#[verifier::loop_isolation(false)]
pub fn build_conversation_history(
    messages: &Vec<Memory>,
    agent_id: &str,
    max_messages: usize,
) -> (r: Vec<(String, String)>)
    ensures
        r@.map_values(|p: (String, String)| (p.0@, p.1@)) == lines_of(
            messages@.skip(window_start(messages@.len() as int, max_messages as int)),
            agent_id@,
        ),
{
    let n = messages.len();
    let start: usize = if n <= max_messages {
        0
    } else {
        n - max_messages
    };
    let ghost window = messages@.skip(start as int);
    let mut out: Vec<(String, String)> = Vec::new();
    let mut i: usize = start;
    proof {
        assert(window.skip(0) =~= window);
        assert(out@.map_values(|p: (String, String)| (p.0@, p.1@)) + lines_of(window, agent_id@)
            =~= lines_of(window, agent_id@));
    }
    while i < n
        invariant
            start <= i <= n,
            n == messages@.len(),
            window == messages@.skip(start as int),
            lines_of(window, agent_id@) == out@.map_values(|p: (String, String)| (p.0@, p.1@))
                + lines_of(window.skip(i - start), agent_id@),
        decreases n - i,
    {
        let ghost rest = window.skip(i - start);
        proof {
            assert(rest[0] == messages@[i as int]);
            assert(rest.skip(1) =~= window.skip(i + 1 - start));
        }
        let m = &messages[i];
        match &m.content.text {
            Some(t) => {
                let role: String = if m.entity_id.as_str().to_owned() == agent_id.to_owned() {
                    String::from_str("assistant")
                } else {
                    String::from_str("user")
                };
                let ghost before = out@;
                out.push((role, t.clone()));
                proof {
                    assert(out@.map_values(|p: (String, String)| (p.0@, p.1@)) =~= before.map_values(
                        |p: (String, String)| (p.0@, p.1@),
                    ).push((out@.last().0@, out@.last().1@)));
                    assert(before.map_values(|p: (String, String)| (p.0@, p.1@)).push(
                        (out@.last().0@, out@.last().1@),
                    ) + lines_of(window.skip(i + 1 - start), agent_id@) =~= before.map_values(
                        |p: (String, String)| (p.0@, p.1@),
                    ) + (seq![(out@.last().0@, out@.last().1@)] + lines_of(
                        window.skip(i + 1 - start),
                        agent_id@,
                    )));
                }
            },
            None => {},
        }
        i = i + 1;
    }
    proof {
        assert(window.skip(n - start) =~= Seq::<Memory>::empty());
        assert(lines_of(window.skip(n - start), agent_id@) =~= Seq::<(Seq<char>, Seq<char>)>::empty());
        assert(out@.map_values(|p: (String, String)| (p.0@, p.1@)) + Seq::<(Seq<char>, Seq<char>)>::empty()
            =~= out@.map_values(|p: (String, String)| (p.0@, p.1@)));
    }
    out
}

/// A named threshold key.
#[derive(Debug, Clone)]
pub struct VetKdKeyId {
    pub curve: VetKdCurve,
    pub name: String,
}

/// The curves threshold derivation offers.
#[derive(Debug, Clone, PartialEq, Eq, Structural)]
pub enum VetKdCurve {
    Bls12381G2,
}

/// The answer to a public-key request.
#[derive(Debug, Clone)]
pub struct VetKdPublicKeyResponse {
    pub public_key: Vec<u8>,
}

/// The arguments of an encrypted-key derivation.
#[derive(Debug, Clone)]
pub struct VetKdEncryptedKeyArgs {
    pub key_id: VetKdKeyId,
    pub derivation_path: Vec<Vec<u8>>,
    pub derivation_id: Vec<u8>,
    pub encryption_public_key: Vec<u8>,
}

/// The answer to an encrypted-key derivation.
#[derive(Debug, Clone)]
pub struct VetKdEncryptedKeyResponse {
    pub encrypted_key: Vec<u8>,
}

/// The key-derivation manager: which named threshold key to derive under.
#[derive(Debug, Clone)]
pub struct VetKeysManager {
    key_id: VetKdKeyId,
}

impl VetKeysManager {
    /// The name of the key the manager derives under.
    pub closed spec fn key_name(self) -> Seq<char> {
        self.key_id.name@
    }

    /// A manager over the named threshold key.
    pub fn new(key_name: &str) -> (r: VetKeysManager)
        ensures
            r.key_name() == key_name@,
    {
        VetKeysManager {
            key_id: VetKdKeyId { curve: VetKdCurve::Bls12381G2, name: key_name.to_owned() },
        }
    }

    /// A manager over the local test key.
    pub fn for_local_testing() -> (r: VetKeysManager)
        ensures
            r.key_name() == "insecure_test_key_1"@,
    {
        VetKeysManager::new("insecure_test_key_1")
    }

    /// A manager over the production key.
    pub fn for_mainnet() -> (r: VetKeysManager)
        ensures
            r.key_name() == "key_1"@,
    {
        VetKeysManager::new("key_1")
    }
}

/// The arguments of a fresh chat with the language-model canister.
#[derive(Debug, Clone)]
pub struct NewChatArgs {
    pub args: Vec<String>,
}

/// The arguments of one generation step.
#[derive(Debug, Clone)]
pub struct RunUpdateArgs {
    pub args: Vec<String>,
}

/// The answer of one generation step.
#[derive(Debug, Clone)]
pub struct RunUpdateResponse {
    pub output: String,
    pub conversation: String,
    pub error: String,
    pub status_code: u16,
    pub prompt_remaining: String,
    pub generated_eog: bool,
}

/// A generation step's outcome; the canister answers with the same record
/// shape either way.
#[derive(Debug, Clone)]
pub enum OutputRecordResult {
    Accepted(RunUpdateResponse),
    Rejected(RunUpdateResponse),
}

/// A status probe's outcome.
#[derive(Debug, Clone)]
pub enum StatusCodeRecordResult {
    Accepted(StatusCodeRecord),
    Rejected(ApiError),
}

/// A bare status code.
#[derive(Debug, Clone)]
pub struct StatusCodeRecord {
    pub status_code: u16,
}

/// What the language-model canister can fail with.
#[derive(Debug, Clone)]
pub enum ApiError {
    Other(String),
    StatusCode(u16),
}

} // verus!
