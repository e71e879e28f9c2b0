//! Static configuration: which tool servers exist, how each is launched, and
//! the agent's and language-model's settings.

use vstd::prelude::*;
use crate::agent::AgentConfig;
use crate::json::JsonValue;
use crate::llm_client::OllamaModel;
use crate::strmap::StrMap;

verus! {

/// How a tool server's subprocess is launched: as a Python module or as a
/// Node package.
#[derive(Debug, Clone, Copy)]
pub enum ServerType {
    Python,
    Node,
}

#[derive(Debug)]
pub struct ServerConfig {
    pub server_type: ServerType,
    pub module_name: Option<String>,
    pub package_name: Option<String>,
    pub auto_install: bool,
    pub config: Option<JsonValue>,
}

#[derive(Debug)]
pub struct LLMConfig {
    pub model: String,
}

impl Default for LLMConfig {
    fn default() -> (r: Self)
        ensures
            r.model@ == OllamaModel::GPToss.spec_name(),
    {
        LLMConfig { model: OllamaModel::GPToss.to_string() }
    }
}

pub struct MCPConfig {
    pub servers: StrMap<ServerConfig>,
}

impl MCPConfig {
    pub open spec fn wf(&self) -> bool {
        self.servers.wf()
    }
}

impl Default for MCPConfig {
    fn default() -> (r: Self)
        ensures
            r.wf(),
            r.servers@ == Map::<Seq<char>, ServerConfig>::empty(),
    {
        MCPConfig { servers: StrMap::new() }
    }
}

pub struct SystemConfig {
    pub mcp_config: MCPConfig,
    pub enabled_servers: Vec<String>,
    pub llm_config: LLMConfig,
    pub agent_config: AgentConfig,
}

impl SystemConfig {
    pub open spec fn wf(&self) -> bool {
        self.mcp_config.wf()
    }

    /// A starting-point configuration with no tool servers.
    pub fn example() -> (r: Self)
        ensures
            r.wf(),
            r.mcp_config.servers@ == Map::<Seq<char>, ServerConfig>::empty(),
            r.enabled_servers@ == Seq::<String>::empty(),
            r.llm_config.model@ == OllamaModel::GPToss.spec_name(),
    {
        let servers: StrMap<ServerConfig> = StrMap::new();
        SystemConfig {
            mcp_config: MCPConfig { servers },
            enabled_servers: Vec::new(),
            llm_config: LLMConfig { model: OllamaModel::GPToss.to_string() },
            agent_config: AgentConfig::default(),
        }
    }
}

impl Default for SystemConfig {
    fn default() -> (r: Self)
        ensures
            r.wf(),
            r.mcp_config.servers@ == Map::<Seq<char>, ServerConfig>::empty(),
            r.enabled_servers@ == Seq::<String>::empty(),
            r.llm_config.model@ == OllamaModel::GPToss.spec_name(),
    {
        SystemConfig {
            mcp_config: MCPConfig::default(),
            enabled_servers: Vec::new(),
            llm_config: LLMConfig::default(),
            agent_config: AgentConfig::default(),
        }
    }
}

} // verus!
