//! The connection manager: tracks which tool servers are live, decides how
//! each is launched, and normalizes what a server reports about its tools.
//! The subprocess transport itself is asynchronous and lives with the
//! embedding program; this state machine is fed the outcome of each launch,
//! stop and listing.

use vstd::prelude::*;
use crate::config::{MCPConfig, ServerType};
use crate::errors::AgenticFlowError;
use crate::json::{JsonSpec, JsonValue};
use crate::strmap::StrMap;

verus! {

/// One tool as a server reports it, tagged with the server's name.
#[derive(Debug)]
pub struct MCPTool {
    pub name: String,
    pub description: String,
    pub input_schema: JsonValue,
    pub server_name: String,
}

/// The mathematical view of a reported tool.
#[verifier::ext_equal]
pub struct MCPToolV {
    pub name: Seq<char>,
    pub description: Seq<char>,
    pub input_schema: JsonSpec,
    pub server_name: Seq<char>,
}

impl View for MCPTool {
    type V = MCPToolV;

    open spec fn view(&self) -> MCPToolV {
        MCPToolV {
            name: self.name@,
            description: self.description@,
            input_schema: self.input_schema@,
            server_name: self.server_name@,
        }
    }
}

/// One tool as the subprocess protocol reports it, before normalization.
#[derive(Debug)]
pub struct RawToolInfo {
    pub name: String,
    pub description: Option<String>,
    pub input_schema: JsonValue,
}

/// The state of one server's connection.
#[derive(Debug)]
pub enum ConnectionStatus {
    Connected,
    Disconnected,
    Errored(String),
}

/// How a server's subprocess is to be launched.
#[derive(Debug)]
pub struct LaunchPlan {
    pub program: String,
    pub args: Vec<String>,
}

pub struct MCPManager {
    active_servers: StrMap<ConnectionStatus>,
    config: MCPConfig,
}

impl MCPManager {
    pub closed spec fn wf(&self) -> bool {
        self.active_servers.wf() && self.config.wf()
    }

    /// The live servers and each one's status.
    pub closed spec fn servers(&self) -> Map<Seq<char>, ConnectionStatus> {
        self.active_servers@
    }

    /// The live servers' names, in the order they were started.
    pub closed spec fn server_names(&self) -> Seq<Seq<char>> {
        self.active_servers.key_seq()
    }

    /// The configured servers.
    pub closed spec fn config_map(&self) -> Map<Seq<char>, crate::config::ServerConfig> {
        self.config.servers@
    }

    pub fn new(config: MCPConfig) -> (r: Self)
        requires
            config.wf(),
        ensures
            r.wf(),
            r.servers() == Map::<Seq<char>, ConnectionStatus>::empty(),
            r.server_names() == Seq::<Seq<char>>::empty(),
            r.config_map() == config.servers@,
    {
        MCPManager { active_servers: StrMap::new(), config }
    }

    /// Decides how the named server is launched: a Python-style server runs
    /// `python -m {module}`, a Node-style server runs `npx -y {package}`. A
    /// missing configuration, or a configuration without the identifier its
    /// kind needs, is an error and changes nothing.
    pub fn prepare_launch(&self, server_name: &str) -> (r: Result<
        LaunchPlan,
        AgenticFlowError,
    >)
        requires
            self.wf(),
        ensures
            match r {
                Ok(plan) => {
                    &&& self.config_map().contains_key(server_name@)
                    &&& {
                        let cfg = self.config_map()[server_name@];
                        match cfg.server_type {
                            ServerType::Python => {
                                &&& cfg.module_name is Some
                                &&& plan.program@ == "python"@
                                &&& plan.args@.len() == 2
                                &&& plan.args@[0]@ == "-m"@
                                &&& plan.args@[1]@ == cfg.module_name->0@
                            },
                            ServerType::Node => {
                                &&& cfg.package_name is Some
                                &&& plan.program@ == "npx"@
                                &&& plan.args@.len() == 2
                                &&& plan.args@[0]@ == "-y"@
                                &&& plan.args@[1]@ == cfg.package_name->0@
                            },
                        }
                    }
                },
                Err(e) => {
                    &&& e is ToolError
                    &&& if !self.config_map().contains_key(server_name@) {
                        e->ToolError_0@ == "Server config not found: "@ + server_name@
                    } else {
                        match self.config_map()[server_name@].server_type {
                            ServerType::Python => {
                                &&& self.config_map()[server_name@].module_name is None
                                &&& e->ToolError_0@ == "Python module name required"@
                            },
                            ServerType::Node => {
                                &&& self.config_map()[server_name@].package_name is None
                                &&& e->ToolError_0@ == "Node package name required"@
                            },
                        }
                    }
                },
            },
    {
        let cfg = match self.config.servers.get(server_name) {
            Some(cfg) => cfg,
            None => {
                let mut msg = "Server config not found: ".to_owned();
                msg.append(server_name);
                return Err(AgenticFlowError::ToolError(msg));
            },
        };
        match cfg.server_type {
            ServerType::Python => {
                match &cfg.module_name {
                    Some(module_name) => {
                        let mut args: Vec<String> = Vec::new();
                        args.push("-m".to_owned());
                        args.push(module_name.clone());
                        Ok(LaunchPlan { program: "python".to_owned(), args })
                    },
                    None => Err(
                        AgenticFlowError::ToolError("Python module name required".to_owned()),
                    ),
                }
            },
            ServerType::Node => {
                match &cfg.package_name {
                    Some(package_name) => {
                        let mut args: Vec<String> = Vec::new();
                        args.push("-y".to_owned());
                        args.push(package_name.clone());
                        Ok(LaunchPlan { program: "npx".to_owned(), args })
                    },
                    None => Err(
                        AgenticFlowError::ToolError("Node package name required".to_owned()),
                    ),
                }
            },
        }
    }

    /// Records the outcome of a launch: a successful launch registers the
    /// server as connected; a failed launch records nothing, so no partially
    /// live connection is ever observable.
    pub fn record_server_started(
        &mut self,
        server_name: &str,
        launch: Result<(), AgenticFlowError>,
    ) -> (r: Result<(), AgenticFlowError>)
        requires
            old(self).wf(),
        ensures
            final(self).wf(),
            final(self).config_map() == old(self).config_map(),
            match r {
                Ok(()) => {
                    &&& launch is Ok
                    &&& final(self).servers() == old(self).servers().insert(
                        server_name@,
                        ConnectionStatus::Connected,
                    )
                    &&& final(self).server_names() == if old(self).servers().contains_key(
                        server_name@,
                    ) {
                        old(self).server_names()
                    } else {
                        old(self).server_names().push(server_name@)
                    }
                },
                Err(_) => {
                    &&& launch is Err
                    &&& r == launch
                    &&& final(self).servers() == old(self).servers()
                    &&& final(self).server_names() == old(self).server_names()
                },
            },
    {
        match launch {
            Ok(()) => {
                self.active_servers.insert(server_name.to_owned(), ConnectionStatus::Connected);
                Ok(())
            },
            Err(e) => Err(e),
        }
    }

    /// Forgets the named server. Stopping a server that is not running is a
    /// no-op, never an error; the caller cancels the subprocess exactly when
    /// this returns true.
    pub fn stop_server(&mut self, server_name: &str) -> (was_running: bool)
        requires
            old(self).wf(),
        ensures
            final(self).wf(),
            final(self).config_map() == old(self).config_map(),
            final(self).servers() == old(self).servers().remove(server_name@),
            was_running == old(self).servers().contains_key(server_name@),
            !was_running ==> final(self).server_names() == old(self).server_names(),
    {
        match self.active_servers.remove(server_name) {
            Some(_) => true,
            None => false,
        }
    }

    /// Whether the named server is live; a caller may list or call tools only
    /// through a live connection, and a miss is the `ServerNotFound` failure.
    pub fn check_server(&self, server_name: &str) -> (r: Result<(), AgenticFlowError>)
        requires
            self.wf(),
        ensures
            r is Ok <==> self.servers().contains_key(server_name@),
            r is Err ==> r->Err_0 is ServerNotFound,
    {
        if self.active_servers.contains_key(server_name) {
            Ok(())
        } else {
            Err(AgenticFlowError::ServerNotFound)
        }
    }

    /// The status of the named server's connection, if it is live.
    pub fn get_server_connection(&self, server_name: &str) -> (r: Option<&ConnectionStatus>)
        requires
            self.wf(),
        ensures
            match r {
                Some(status) => self.servers().contains_key(server_name@) && *status
                    == self.servers()[server_name@],
                None => !self.servers().contains_key(server_name@),
            },
    {
        self.active_servers.get(server_name)
    }

    /// The live servers' names, in the order they were started.
    pub fn get_active_server_names(&self) -> (r: Vec<String>)
        ensures
            r@.len() == self.server_names().len(),
            forall|i: int| 0 <= i < r@.len() ==> r@[i]@ == self.server_names()[i],
    {
        self.active_servers.keys()
    }

    /// Normalizes what a server reported: a missing description becomes the
    /// empty one, and each tool is tagged with the server's name.
    pub fn normalize_server_tools(server_name: &str, raw: Vec<RawToolInfo>) -> (r: Vec<MCPTool>)
        ensures
            r@.len() == raw@.len(),
            forall|i: int|
                0 <= i < raw@.len() ==> r@[i]@ == (MCPToolV {
                    name: raw@[i].name@,
                    description: match raw@[i].description {
                        Some(d) => d@,
                        None => Seq::<char>::empty(),
                    },
                    input_schema: raw@[i].input_schema@,
                    server_name: server_name@,
                }),
    {
        let mut out: Vec<MCPTool> = Vec::new();
        let mut idx: usize = 0;
        while idx < raw.len()
            invariant
                idx <= raw@.len(),
                out@.len() == idx,
                forall|i: int|
                    0 <= i < idx ==> out@[i]@ == (MCPToolV {
                        name: raw@[i].name@,
                        description: match raw@[i].description {
                            Some(d) => d@,
                            None => Seq::<char>::empty(),
                        },
                        input_schema: raw@[i].input_schema@,
                        server_name: server_name@,
                    }),
            decreases raw@.len() - idx,
        {
            let item = &raw[idx];
            let description = match &item.description {
                Some(d) => d.clone(),
                None => "".to_owned(),
            };
            out.push(
                MCPTool {
                    name: item.name.clone(),
                    description,
                    input_schema: item.input_schema.clone(),
                    server_name: server_name.to_owned(),
                },
            );
            proof {
                reveal_strlit("");
                assert(out@[idx as int]@ =~= (MCPToolV {
                    name: raw@[idx as int].name@,
                    description: match raw@[idx as int].description {
                        Some(d) => d@,
                        None => Seq::<char>::empty(),
                    },
                    input_schema: raw@[idx as int].input_schema@,
                    server_name: server_name@,
                }));
            }
            idx += 1;
        }
        out
    }
}

impl MCPManager {
    /// The live server names are exactly the server table's domain, each
    /// listed once.
    pub proof fn lemma_server_names(&self)
        requires
            self.wf(),
        ensures
            forall|i: int|
                0 <= i < self.server_names().len() ==> self.servers().contains_key(
                    #[trigger] self.server_names()[i],
                ),
            forall|k: Seq<char>|
                self.servers().contains_key(k) ==> exists|i: int|
                    0 <= i < self.server_names().len() && self.server_names()[i] == k,
            forall|i: int, j: int|
                0 <= i < j < self.server_names().len() ==> self.server_names()[i]
                    != self.server_names()[j],
    {
        self.active_servers.lemma_keys();
    }
}

/// Law: stopping a server is idempotent. Stopping a name that is not live
/// changes nothing, and a second stop right after a first changes nothing
/// more.
pub proof fn lemma_stop_server_idempotent(
    servers: Map<Seq<char>, ConnectionStatus>,
    name: Seq<char>,
)
    ensures
        servers.remove(name).remove(name) =~= servers.remove(name),
        !servers.contains_key(name) ==> servers.remove(name) =~= servers,
{
}

} // verus!
