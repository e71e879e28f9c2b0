//! The tool registry: one namespace over locally registered handlers and
//! remotely served tools, with deterministic resolution. A local handler
//! always shadows a remote tool of the same name; when two servers expose the
//! same tool name, the later one is re-keyed as `"{server}::{tool}"` rather
//! than silently shadowing the earlier.

use vstd::prelude::*;
use crate::context::ExecutionContext;
use crate::errors::AgenticFlowError;
use crate::json::{lemma_jview_entries, JsonSpec, JsonValue};
use crate::mcp_manager::{MCPTool, MCPToolV};
use crate::strmap::StrMap;

verus! {

/// A locally implemented tool: named, described, schema-carrying, and run in
/// process. Implementations come from the embedding program; the registry
/// relies only on `execute` keeping the context well-formed and never erasing
/// a recorded entry — both guaranteed by the context's own interface, which
/// offers insertion and lookup and no removal.
pub trait LocalTool: Send + Sync {
    fn name(&self) -> &str;

    fn description(&self) -> &str;

    fn parameter_schema(&self) -> JsonValue;

    fn execute(&self, params: JsonValue, context: &mut ExecutionContext) -> (r: Result<
        JsonValue,
        AgenticFlowError,
    >)
        requires
            old(context).wf(),
        ensures
            final(context).wf(),
            forall|k: Seq<char>|
                old(context)@.contains_key(k) ==> final(context)@.contains_key(k),
    ;
}

/// Where a resolved remote tool lives: the server to call and the tool's name
/// on that server (the bare name, even when the registry key is namespaced).
#[derive(Debug)]
pub struct MCPToolDescriptor {
    pub server_name: String,
    pub tool_name: String,
    pub description: String,
    pub input_schema: JsonValue,
}

/// The mathematical view of a remote tool descriptor.
#[verifier::ext_equal]
pub struct MCPToolDescV {
    pub server_name: Seq<char>,
    pub tool_name: Seq<char>,
    pub description: Seq<char>,
    pub input_schema: JsonSpec,
}

impl View for MCPToolDescriptor {
    type V = MCPToolDescV;

    open spec fn view(&self) -> MCPToolDescV {
        MCPToolDescV {
            server_name: self.server_name@,
            tool_name: self.tool_name@,
            description: self.description@,
            input_schema: self.input_schema@,
        }
    }
}

/// One entry of the planner-facing catalog.
#[derive(Debug)]
pub enum ToolDescriptor {
    Local { name: String, description: String, schema: JsonValue },
    MCP { name: String, description: String, schema: JsonValue, server_name: String },
}

/// The mathematical view of a catalog entry.
#[verifier::ext_equal]
pub enum ToolDescV {
    Local { name: Seq<char>, description: Seq<char>, schema: JsonSpec },
    MCP { name: Seq<char>, description: Seq<char>, schema: JsonSpec, server_name: Seq<char> },
}

impl View for ToolDescriptor {
    type V = ToolDescV;

    open spec fn view(&self) -> ToolDescV {
        match self {
            ToolDescriptor::Local { name, description, schema } => ToolDescV::Local {
                name: name@,
                description: description@,
                schema: schema@,
            },
            ToolDescriptor::MCP { name, description, schema, server_name } => ToolDescV::MCP {
                name: name@,
                description: description@,
                schema: schema@,
                server_name: server_name@,
            },
        }
    }
}

/// A catalog entry's externally visible name.
pub open spec fn desc_name(d: ToolDescV) -> Seq<char> {
    match d {
        ToolDescV::Local { name, .. } => name,
        ToolDescV::MCP { name, .. } => name,
    }
}

/// A catalog entry's description.
pub open spec fn desc_description(d: ToolDescV) -> Seq<char> {
    match d {
        ToolDescV::Local { description, .. } => description,
        ToolDescV::MCP { description, .. } => description,
    }
}

/// A catalog entry's parameter schema.
pub open spec fn desc_schema(d: ToolDescV) -> JsonSpec {
    match d {
        ToolDescV::Local { schema, .. } => schema,
        ToolDescV::MCP { schema, .. } => schema,
    }
}

/// What resolving one invocation produced: a local handler's result, a
/// routing decision toward a server, or an unknown-name failure.
#[derive(Debug)]
pub enum ToolDispatch {
    Local(Result<JsonValue, AgenticFlowError>),
    Remote { server_name: String, tool_name: String, params: JsonValue },
    NotFound(AgenticFlowError),
}

/// What one server reported when asked for its tools, or the error the
/// listing ended in.
pub struct ServerToolListing {
    pub server_name: String,
    pub tools: Result<Vec<MCPTool>, AgenticFlowError>,
}

/// The key a discovered tool is filed under when its bare name is taken.
pub open spec fn namespaced(server: Seq<char>, name: Seq<char>) -> Seq<char> {
    server + "::"@ + name
}

/// The descriptor a discovered tool gets.
pub open spec fn remote_desc(server: Seq<char>, t: MCPToolV) -> MCPToolDescV {
    MCPToolDescV {
        server_name: server,
        tool_name: t.name,
        description: t.description,
        input_schema: t.input_schema,
    }
}

/// One discovery step: the tool is filed under its bare name, or under
/// `"{server}::{tool}"` when the bare name is already taken — by an earlier
/// discovery or by a locally registered tool; either way one catalog entry is
/// appended under the key chosen, and no existing name is silently shadowed.
pub open spec fn insert_remote(
    locals: Set<Seq<char>>,
    m: Map<Seq<char>, MCPToolDescV>,
    adds: Seq<ToolDescV>,
    server: Seq<char>,
    t: MCPToolV,
) -> (Map<Seq<char>, MCPToolDescV>, Seq<ToolDescV>) {
    let key = if locals.contains(t.name) || m.contains_key(t.name) {
        namespaced(server, t.name)
    } else {
        t.name
    };
    (
        m.insert(key, remote_desc(server, t)),
        adds.push(
            ToolDescV::MCP {
                name: key,
                description: t.description,
                schema: t.input_schema,
                server_name: server,
            },
        ),
    )
}

/// The discovery steps of one server's tools, in order.
pub open spec fn after_tools(
    locals: Set<Seq<char>>,
    m: Map<Seq<char>, MCPToolDescV>,
    adds: Seq<ToolDescV>,
    server: Seq<char>,
    ts: Seq<MCPToolV>,
) -> (Map<Seq<char>, MCPToolDescV>, Seq<ToolDescV>)
    decreases ts.len(),
{
    if ts.len() == 0 {
        (m, adds)
    } else {
        let prev = after_tools(locals, m, adds, server, ts.drop_last());
        insert_remote(locals, prev.0, prev.1, server, ts.last())
    }
}

/// The discovery steps of several servers' tools, server by server.
pub open spec fn after_listings(
    locals: Set<Seq<char>>,
    m: Map<Seq<char>, MCPToolDescV>,
    adds: Seq<ToolDescV>,
    ls: Seq<(Seq<char>, Seq<MCPToolV>)>,
) -> (Map<Seq<char>, MCPToolDescV>, Seq<ToolDescV>)
    decreases ls.len(),
{
    if ls.len() == 0 {
        (m, adds)
    } else {
        let prev = after_listings(locals, m, adds, ls.drop_last());
        after_tools(locals, prev.0, prev.1, ls.last().0, ls.last().1)
    }
}

/// The views of a reported tool list.
pub open spec fn tools_view(ts: Seq<MCPTool>) -> Seq<MCPToolV> {
    Seq::new(ts.len(), |i: int| ts[i]@)
}

/// The views of the successful listings (meaningful on an all-`Ok` prefix).
pub open spec fn listings_view(ls: Seq<ServerToolListing>) -> Seq<(Seq<char>, Seq<MCPToolV>)> {
    Seq::new(ls.len(), |i: int| (ls[i].server_name@, tools_view(ls[i].tools->Ok_0@)))
}

pub struct ToolRegistry {
    local_tools: StrMap<Box<dyn LocalTool>>,
    mcp_tool_map: StrMap<MCPToolDescriptor>,
    local_catalog: Vec<ToolDescriptor>,
    remote_catalog: Vec<ToolDescriptor>,
}

impl ToolRegistry {
    pub closed spec fn wf(&self) -> bool {
        self.local_tools.wf() && self.mcp_tool_map.wf()
    }

    /// The registered local handlers, by name.
    pub closed spec fn local_map(&self) -> Map<Seq<char>, Box<dyn LocalTool>> {
        self.local_tools@
    }

    /// The discovered remote tools, by resolved (possibly namespaced) name.
    pub closed spec fn remotes(&self) -> Map<Seq<char>, MCPToolDescV> {
        Map::new(
            |k: Seq<char>| self.mcp_tool_map@.contains_key(k),
            |k: Seq<char>| self.mcp_tool_map@[k]@,
        )
    }

    /// The catalog entries the local registrations contributed, in order.
    pub closed spec fn local_catalog_v(&self) -> Seq<ToolDescV> {
        Seq::new(self.local_catalog@.len(), |i: int| self.local_catalog@[i]@)
    }

    /// The catalog entries the last discovery contributed, in order.
    pub closed spec fn remote_catalog_v(&self) -> Seq<ToolDescV> {
        Seq::new(self.remote_catalog@.len(), |i: int| self.remote_catalog@[i]@)
    }

    /// The planner-facing catalog: the local registrations in registration
    /// order, then the last discovery's remote entries in discovery order. A
    /// local tool registered after a refresh therefore lists before the
    /// remote entries; the catalog pledges no order across the two kinds.
    pub open spec fn catalog(&self) -> Seq<ToolDescV> {
        self.local_catalog_v() + self.remote_catalog_v()
    }

    pub fn new() -> (r: Self)
        ensures
            r.wf(),
            r.local_map() == Map::<Seq<char>, Box<dyn LocalTool>>::empty(),
            r.remotes() == Map::<Seq<char>, MCPToolDescV>::empty(),
            r.catalog() == Seq::<ToolDescV>::empty(),
    {
        let r = ToolRegistry {
            local_tools: StrMap::new(),
            mcp_tool_map: StrMap::new(),
            local_catalog: Vec::new(),
            remote_catalog: Vec::new(),
        };
        proof {
            assert(r.remotes() =~= Map::<Seq<char>, MCPToolDescV>::empty());
            assert(r.catalog() =~= Seq::<ToolDescV>::empty());
        }
        r
    }

    /// Files the handler under the name it reports and hands that name back:
    /// the handler is registered under exactly the returned key — a duplicate
    /// registration overwrites the handler, never fails — and one catalog
    /// entry carrying the same name, the handler's description and schema is
    /// appended; no catalog entry is ever removed by registration.
    pub fn register_local_tool(&mut self, tool: Box<dyn LocalTool>) -> (registered: String)
        requires
            old(self).wf(),
        ensures
            final(self).wf(),
            final(self).remotes() == old(self).remotes(),
            final(self).remote_catalog_v() == old(self).remote_catalog_v(),
            final(self).local_map() == old(self).local_map().insert(registered@, tool),
            exists|d: Seq<char>, sch: JsonSpec|
                #![auto]
                final(self).local_catalog_v() == old(self).local_catalog_v().push(
                    ToolDescV::Local { name: registered@, description: d, schema: sch },
                ),
    {
        let name = tool.name().to_owned();
        let description = tool.description().to_owned();
        let schema = tool.parameter_schema();
        let ghost n = name@;
        let ghost d = description@;
        let ghost sch = schema@;
        self.local_catalog.push(ToolDescriptor::Local { name: name.clone(), description, schema });
        let registered = name.clone();
        self.local_tools.insert(name, tool);
        proof {
            assert(final(self).remotes() =~= old(self).remotes());
            assert(final(self).remote_catalog_v() =~= old(self).remote_catalog_v());
            assert(final(self).local_catalog_v() =~= old(self).local_catalog_v().push(
                ToolDescV::Local { name: n, description: d, schema: sch },
            ));
        }
        registered
    }

    /// What `execute_tool` promises about its dispatch: a registered local
    /// name always reaches the local handler, a name known only remotely is
    /// routed to its server with the bare tool name and the caller's
    /// parameters, and any other name is the "tool not found" failure.
    pub open spec fn dispatch_ensures(
        &self,
        name: Seq<char>,
        params: JsonSpec,
        r: ToolDispatch,
    ) -> bool {
        &&& (r is Local <==> self.local_map().contains_key(name))
        &&& (r is Remote <==> !self.local_map().contains_key(name) && self.remotes().contains_key(
            name,
        ))
        &&& (r is Remote ==> {
            &&& r->Remote_server_name@ == self.remotes()[name].server_name
            &&& r->Remote_tool_name@ == self.remotes()[name].tool_name
            &&& r->Remote_params@ == params
        })
        &&& (r is NotFound ==> {
            &&& !self.local_map().contains_key(name)
            &&& !self.remotes().contains_key(name)
            &&& r->NotFound_0 is ToolError
            &&& r->NotFound_0->ToolError_0@ == "Tool '"@ + name + "' not found"@
        })
        &&& (!self.local_map().contains_key(name) && !self.remotes().contains_key(name)
            ==> r is NotFound)
    }

    /// Resolves one invocation: local first, then remote, else "tool not
    /// found". Only a local handler may touch the context.
    pub fn execute_tool(
        &self,
        tool_name: &str,
        params: JsonValue,
        context: &mut ExecutionContext,
    ) -> (r: ToolDispatch)
        requires
            self.wf(),
            old(context).wf(),
        ensures
            final(context).wf(),
            self.dispatch_ensures(tool_name@, params@, r),
            !(r is Local) ==> final(context)@ == old(context)@,
            forall|k: Seq<char>|
                old(context)@.contains_key(k) ==> final(context)@.contains_key(k),
    {
        if let Some(tool) = self.local_tools.get(tool_name) {
            return ToolDispatch::Local(tool.execute(params, context));
        }
        if let Some(descriptor) = self.mcp_tool_map.get(tool_name) {
            return ToolDispatch::Remote {
                server_name: descriptor.server_name.clone(),
                tool_name: descriptor.tool_name.clone(),
                params,
            };
        }
        let mut msg = "Tool '".to_owned();
        msg.append(tool_name);
        msg.append("' not found");
        ToolDispatch::NotFound(AgenticFlowError::ToolError(msg))
    }

    /// Maps what a remote call came back with into the invocation's result:
    /// a payload is the result, a success without payload counts as the null
    /// result, and a transport error surfaces as a tool failure naming the
    /// tool.
    pub fn finish_remote_call(tool_name: &str, outcome: Result<Option<JsonValue>, String>) -> (r:
        Result<JsonValue, AgenticFlowError>)
        ensures
            match outcome {
                Ok(Some(v)) => r matches Ok(out) && out@ == v@,
                Ok(None) => r matches Ok(out) && out@ == JsonSpec::Null,
                Err(e) => r matches Err(err) && err is ToolError && err->ToolError_0@
                    == "Failed to call MCP tool '"@ + tool_name@ + "': "@ + e@,
            },
    {
        match outcome {
            Ok(Some(v)) => Ok(v),
            Ok(None) => Ok(JsonValue::Null),
            Err(e) => {
                let mut msg = "Failed to call MCP tool '".to_owned();
                msg.append(tool_name);
                msg.append("': ");
                msg.append(e.as_str());
                Err(AgenticFlowError::ToolError(msg))
            },
        }
    }

    /// Every catalog entry's name, in catalog order.
    pub fn get_tools_names(&self) -> (r: Vec<String>)
        ensures
            r@.len() == self.catalog().len(),
            forall|i: int| 0 <= i < r@.len() ==> r@[i]@ == desc_name(self.catalog()[i]),
    {
        let mut out: Vec<String> = Vec::new();
        let mut idx: usize = 0;
        while idx < self.local_catalog.len()
            invariant
                idx <= self.local_catalog@.len(),
                out@.len() == idx,
                forall|i: int| 0 <= i < idx ==> out@[i]@ == desc_name(self.catalog()[i]),
            decreases self.local_catalog@.len() - idx,
        {
            let name = match &self.local_catalog[idx] {
                ToolDescriptor::Local { name, .. } => name.clone(),
                ToolDescriptor::MCP { name, .. } => name.clone(),
            };
            out.push(name);
            idx += 1;
        }
        let local_len = self.local_catalog.len();
        let mut jdx: usize = 0;
        while jdx < self.remote_catalog.len()
            invariant
                jdx <= self.remote_catalog@.len(),
                local_len == self.local_catalog@.len(),
                out@.len() == local_len + jdx,
                forall|i: int| 0 <= i < out@.len() ==> out@[i]@ == desc_name(self.catalog()[i]),
            decreases self.remote_catalog@.len() - jdx,
        {
            let name = match &self.remote_catalog[jdx] {
                ToolDescriptor::Local { name, .. } => name.clone(),
                ToolDescriptor::MCP { name, .. } => name.clone(),
            };
            out.push(name);
            jdx += 1;
        }
        out
    }

    /// The catalog in the planner's export format: one
    /// `{"type": "function", "function": {name, description, parameters}}`
    /// entry per visible tool. A remote tool's hosting server is not exposed.
    pub fn get_tools_for_planner(&self) -> (r: Vec<JsonValue>)
        ensures
            r@.len() == self.catalog().len(),
            forall|i: int| 0 <= i < r@.len() ==> r@[i]@ == planner_entry(self.catalog()[i]),
    {
        let mut out: Vec<JsonValue> = Vec::new();
        let mut idx: usize = 0;
        while idx < self.local_catalog.len()
            invariant
                idx <= self.local_catalog@.len(),
                out@.len() == idx,
                forall|i: int| 0 <= i < idx ==> out@[i]@ == planner_entry(self.catalog()[i]),
            decreases self.local_catalog@.len() - idx,
        {
            out.push(planner_entry_of(&self.local_catalog[idx]));
            idx += 1;
        }
        let local_len = self.local_catalog.len();
        let mut jdx: usize = 0;
        while jdx < self.remote_catalog.len()
            invariant
                jdx <= self.remote_catalog@.len(),
                local_len == self.local_catalog@.len(),
                out@.len() == local_len + jdx,
                forall|i: int| 0 <= i < out@.len() ==> out@[i]@ == planner_entry(self.catalog()[i]),
            decreases self.remote_catalog@.len() - jdx,
        {
            out.push(planner_entry_of(&self.remote_catalog[jdx]));
            jdx += 1;
        }
        out
    }

    /// Files one discovered tool, re-keying it as `"{server}::{tool}"` when
    /// its bare name is already taken — by an earlier discovery or by a
    /// locally registered tool.
    fn insert_discovered(&mut self, server_name: &String, tool: MCPTool)
        requires
            old(self).wf(),
        ensures
            final(self).wf(),
            final(self).local_map() == old(self).local_map(),
            final(self).local_catalog_v() == old(self).local_catalog_v(),
            final(self).remotes() == insert_remote(
                old(self).local_map().dom(),
                old(self).remotes(),
                old(self).remote_catalog_v(),
                server_name@,
                tool@,
            ).0,
            final(self).remote_catalog_v() == insert_remote(
                old(self).local_map().dom(),
                old(self).remotes(),
                old(self).remote_catalog_v(),
                server_name@,
                tool@,
            ).1,
    {
        let taken = self.local_tools.contains_key(tool.name.as_str())
            || self.mcp_tool_map.contains_key(tool.name.as_str());
        let final_name = if taken {
            let mut s = server_name.clone();
            s.append("::");
            s.append(tool.name.as_str());
            s
        } else {
            tool.name.clone()
        };
        let descriptor = MCPToolDescriptor {
            server_name: server_name.clone(),
            tool_name: tool.name.clone(),
            description: tool.description.clone(),
            input_schema: tool.input_schema.clone(),
        };
        self.remote_catalog.push(
            ToolDescriptor::MCP {
                name: final_name.clone(),
                description: tool.description,
                schema: tool.input_schema,
                server_name: server_name.clone(),
            },
        );
        self.mcp_tool_map.insert(final_name, descriptor);
        proof {
            assert(final(self).remotes() =~= insert_remote(
                old(self).local_map().dom(),
                old(self).remotes(),
                old(self).remote_catalog_v(),
                server_name@,
                tool@,
            ).0);
            assert(final(self).remote_catalog_v() =~= insert_remote(
                old(self).local_map().dom(),
                old(self).remotes(),
                old(self).remote_catalog_v(),
                server_name@,
                tool@,
            ).1);
            assert(final(self).local_catalog_v() =~= old(self).local_catalog_v());
        }
    }

    /// Forgets every discovered remote tool and its catalog entries; the next
    /// discovery starts clean. Local registrations stay untouched.
    fn clear_remote_tools(&mut self)
        requires
            old(self).wf(),
        ensures
            final(self).wf(),
            final(self).local_map() == old(self).local_map(),
            final(self).local_catalog_v() == old(self).local_catalog_v(),
            final(self).remotes() == Map::<Seq<char>, MCPToolDescV>::empty(),
            final(self).remote_catalog_v() == Seq::<ToolDescV>::empty(),
    {
        self.mcp_tool_map.clear();
        self.remote_catalog = Vec::new();
        proof {
            assert(final(self).remotes() =~= Map::<Seq<char>, MCPToolDescV>::empty());
            assert(final(self).remote_catalog_v() =~= Seq::<ToolDescV>::empty());
            assert(final(self).local_catalog_v() =~= old(self).local_catalog_v());
        }
    }

    /// Rebuilds the remote side of the namespace from what each server
    /// reported, in order: a discovered tool whose bare name is already taken
    /// — by a locally registered tool or by an earlier discovery — is filed
    /// as `"{server}::{tool}"`. A listing that ended in an error stops the
    /// refresh there and surfaces that error, keeping what was inserted so
    /// far.
    pub fn refresh_mcp_tools(&mut self, discovered: Vec<ServerToolListing>) -> (r: Result<
        (),
        AgenticFlowError,
    >)
        requires
            old(self).wf(),
        ensures
            final(self).wf(),
            final(self).local_map() == old(self).local_map(),
            final(self).local_catalog_v() == old(self).local_catalog_v(),
            r is Ok ==> all_listings_ok(discovered@, discovered@.len() as int)
                && refreshed_state(*final(self), discovered@, discovered@.len() as int),
            r is Err ==> refresh_stopped_early(*final(self), discovered@, r->Err_0),
    {
        let listing_count: usize = discovered.len();
        self.clear_remote_tools();
        let ghost all = discovered@;
        let mut rest = discovered;
        let mut processed: usize = 0;
        let mut failure: Option<AgenticFlowError> = None;
        while failure.is_none() && rest.len() > 0
            invariant
                self.wf(),
                self.local_map() == old(self).local_map(),
                self.local_catalog_v() == old(self).local_catalog_v(),
                all.len() == listing_count,
                failure is None ==> processed + rest@.len() == all.len() && rest@ =~= all.skip(
                    processed as int,
                ),
                failure is None ==> all_listings_ok(all, processed as int) && refreshed_state(
                    *self,
                    all,
                    processed as int,
                ),
                failure matches Some(e) ==> refresh_stopped_early(*self, all, e),
            decreases rest@.len(),
        {
            proof {
                assert(rest@[0] == all[processed as int]);
            }
            let listing = rest.remove(0);
            proof {
                assert(listing == all[processed as int]);
            }
            match listing.tools {
                Err(e) => {
                    proof {
                        assert(listing_failed_at(all, processed as int, e));
                        assert(refreshed_state(*self, all, processed as int));
                        assert(refresh_stopped_early(*self, all, e));
                    }
                    failure = Some(e);
                },
                Ok(tools) => {
                    let server_name = listing.server_name;
                    let ghost m0 = self.remotes();
                    let ghost a0 = self.remote_catalog_v();
                    let tool_count: usize = tools.len();
                    let ghost vt = tools_view(tools@);
                    let mut trest = tools;
                    let mut tdone: usize = 0;
                    while trest.len() > 0
                        invariant
                            self.wf(),
                            self.local_map() == old(self).local_map(),
                            self.local_catalog_v() == old(self).local_catalog_v(),
                            vt.len() == tool_count,
                            tdone + trest@.len() == vt.len(),
                            forall|i: int|
                                0 <= i < trest@.len() ==> trest@[i]@ == vt[tdone + i],
                            self.remotes() == after_tools(
                                old(self).local_map().dom(),
                                m0,
                                a0,
                                server_name@,
                                vt.take(tdone as int),
                            ).0,
                            self.remote_catalog_v() == after_tools(
                                old(self).local_map().dom(),
                                m0,
                                a0,
                                server_name@,
                                vt.take(tdone as int),
                            ).1,
                        decreases trest@.len(),
                    {
                        let tool = trest.remove(0);
                        proof {
                            assert(tool@ == vt[tdone as int]);
                            assert(vt.take(tdone as int + 1).drop_last() =~= vt.take(
                                tdone as int,
                            ));
                            assert(vt.take(tdone as int + 1).last() == vt[tdone as int]);
                        }
                        self.insert_discovered(&server_name, tool);
                        tdone += 1;
                    }
                    proof {
                        assert(vt.take(tdone as int) =~= vt);
                        lemma_refreshed_step(*self, all, processed as int, m0, a0, server_name@, vt);
                    }
                    processed += 1;
                },
            }
        }
        match failure {
            None => {
                proof {
                    assert(processed == all.len());
                }
                Ok(())
            },
            Some(e) => Err(e),
        }
    }
}

/// The catalog entries before position `upto` were all reported successfully.
pub open spec fn all_listings_ok(ls: Seq<ServerToolListing>, upto: int) -> bool {
    forall|j: int| 0 <= j < upto ==> (#[trigger] ls[j]).tools is Ok
}

/// The listing at `k` is the first that failed, and it failed with `e`.
pub open spec fn listing_failed_at(ls: Seq<ServerToolListing>, k: int, e: AgenticFlowError) -> bool {
    &&& 0 <= k < ls.len()
    &&& ls[k].tools is Err
    &&& all_listings_ok(ls, k)
    &&& e == ls[k].tools->Err_0
}

/// A refresh that returned the error `e` stopped at the first failed listing
/// and kept exactly what the listings before it inserted.
pub open spec fn refresh_stopped_early(
    reg: ToolRegistry,
    ls: Seq<ServerToolListing>,
    e: AgenticFlowError,
) -> bool {
    exists|k: int| #![auto] listing_failed_at(ls, k, e) && refreshed_state(reg, ls, k)
}

/// The registry's remote side equals the fold of the first `upto` listings
/// over an empty remote table.
pub open spec fn refreshed_state(reg: ToolRegistry, ls: Seq<ServerToolListing>, upto: int) -> bool {
    &&& reg.remotes() == after_listings(
        reg.local_map().dom(),
        Map::<Seq<char>, MCPToolDescV>::empty(),
        Seq::<ToolDescV>::empty(),
        listings_view(ls.take(upto)),
    ).0
    &&& reg.remote_catalog_v() == after_listings(
        reg.local_map().dom(),
        Map::<Seq<char>, MCPToolDescV>::empty(),
        Seq::<ToolDescV>::empty(),
        listings_view(ls.take(upto)),
    ).1
}

proof fn lemma_refreshed_step(
    reg: ToolRegistry,
    ls: Seq<ServerToolListing>,
    k: int,
    m0: Map<Seq<char>, MCPToolDescV>,
    a0: Seq<ToolDescV>,
    server: Seq<char>,
    vt: Seq<MCPToolV>,
)
    requires
        0 <= k < ls.len(),
        ls[k].tools is Ok,
        server == ls[k].server_name@,
        vt == tools_view(ls[k].tools->Ok_0@),
        m0 == after_listings(
            reg.local_map().dom(),
            Map::<Seq<char>, MCPToolDescV>::empty(),
            Seq::<ToolDescV>::empty(),
            listings_view(ls.take(k)),
        ).0,
        a0 == after_listings(
            reg.local_map().dom(),
            Map::<Seq<char>, MCPToolDescV>::empty(),
            Seq::<ToolDescV>::empty(),
            listings_view(ls.take(k)),
        ).1,
        reg.remotes() == after_tools(reg.local_map().dom(), m0, a0, server, vt).0,
        reg.remote_catalog_v() == after_tools(reg.local_map().dom(), m0, a0, server, vt).1,
    ensures
        refreshed_state(reg, ls, k + 1),
{
    assert(listings_view(ls.take(k + 1)).drop_last() =~= listings_view(ls.take(k)));
    assert(listings_view(ls.take(k + 1)).last() == (server, vt));
}

/// The planner's export of one catalog entry.
pub open spec fn planner_entry(d: ToolDescV) -> JsonSpec {
    JsonSpec::Object(
        seq![
            ("type"@, JsonSpec::Text("function"@)),
            (
                "function"@,
                JsonSpec::Object(
                    seq![
                        ("name"@, JsonSpec::Text(desc_name(d))),
                        ("description"@, JsonSpec::Text(desc_description(d))),
                        ("parameters"@, desc_schema(d)),
                    ],
                ),
            ),
        ],
    )
}

fn planner_entry_of(d: &ToolDescriptor) -> (r: JsonValue)
    ensures
        r@ == planner_entry(d@),
{
    let (name, description, schema) = match d {
        ToolDescriptor::Local { name, description, schema } => (name, description, schema),
        ToolDescriptor::MCP { name, description, schema, .. } => (name, description, schema),
    };
    let mut function_fields: Vec<(String, JsonValue)> = Vec::new();
    function_fields.push(("name".to_owned(), JsonValue::Text(name.clone())));
    function_fields.push(("description".to_owned(), JsonValue::Text(description.clone())));
    function_fields.push(("parameters".to_owned(), schema.clone()));
    let function_obj = JsonValue::Object(function_fields);
    proof {
        lemma_jview_entries(function_obj->Object_0@);
        assert(function_obj@->Object_0 =~= seq![
            ("name"@, JsonSpec::Text(desc_name(d@))),
            ("description"@, JsonSpec::Text(desc_description(d@))),
            ("parameters"@, desc_schema(d@)),
        ]);
    }
    let mut fields: Vec<(String, JsonValue)> = Vec::new();
    fields.push(("type".to_owned(), JsonValue::Text("function".to_owned())));
    fields.push(("function".to_owned(), function_obj));
    let r = JsonValue::Object(fields);
    proof {
        lemma_jview_entries(r->Object_0@);
        assert(r@->Object_0 =~= planner_entry(d@)->Object_0);
        assert(r@ =~= planner_entry(d@));
    }
    r
}

/// The catalog entries' names, in order.
pub open spec fn names_of(cat: Seq<ToolDescV>) -> Seq<Seq<char>> {
    Seq::new(cat.len(), |i: int| desc_name(cat[i]))
}

/// How often a name occurs in a list of names.
pub open spec fn name_count(names: Seq<Seq<char>>, target: Seq<char>) -> int
    decreases names.len(),
{
    if names.len() == 0 {
        0
    } else {
        (if names.last() == target {
            1int
        } else {
            0int
        }) + name_count(names.drop_last(), target)
    }
}

proof fn lemma_name_count_absent(names: Seq<Seq<char>>, target: Seq<char>)
    requires
        forall|i: int| 0 <= i < names.len() ==> names[i] != target,
    ensures
        name_count(names, target) == 0,
    decreases names.len(),
{
    if names.len() > 0 {
        lemma_name_count_absent(names.drop_last(), target);
    }
}

/// Law: a local tool registered under a name that no catalog entry carries
/// yet is listed exactly once afterwards.
pub proof fn lemma_registered_name_listed_once(
    cat: Seq<ToolDescV>,
    n: Seq<char>,
    d: Seq<char>,
    sch: JsonSpec,
)
    requires
        forall|i: int| 0 <= i < cat.len() ==> desc_name(#[trigger] cat[i]) != n,
    ensures
        name_count(
            names_of(cat.push(ToolDescV::Local { name: n, description: d, schema: sch })),
            n,
        ) == 1,
{
    let cat2 = cat.push(ToolDescV::Local { name: n, description: d, schema: sch });
    assert(names_of(cat2).drop_last() =~= names_of(cat));
    assert(names_of(cat2).last() == n);
    lemma_name_count_absent(names_of(cat), n);
}

/// Law: name resolution is authoritative for local tools. Whatever remote
/// tools were discovered, an invocation of a locally registered name reaches
/// the local handler, never a remote target of the same name.
pub proof fn lemma_local_shadows_remote(
    reg: &ToolRegistry,
    name: Seq<char>,
    params: JsonSpec,
    r: ToolDispatch,
)
    requires
        reg.dispatch_ensures(name, params, r),
        reg.local_map().contains_key(name),
    ensures
        r is Local,
{
}

/// Law: when two servers expose a tool with one underlying name that no
/// local tool carries, a refresh that discovers both keeps the bare name for
/// the first and files the second as `"{server}::{tool}"`; the namespaced
/// name routes to the second server with the bare tool name, and nothing is
/// silently shadowed.
pub proof fn lemma_conflicting_names_namespaced(
    locals: Set<Seq<char>>,
    s1: Seq<char>,
    s2: Seq<char>,
    t1: MCPToolV,
    t2: MCPToolV,
)
    requires
        t1.name == t2.name,
        !locals.contains(t1.name),
    ensures
        ({
            let after = after_listings(
                locals,
                Map::<Seq<char>, MCPToolDescV>::empty(),
                Seq::<ToolDescV>::empty(),
                seq![(s1, seq![t1]), (s2, seq![t2])],
            );
            &&& namespaced(s2, t2.name) != t2.name
            &&& after.0.dom() =~= set![t1.name, namespaced(s2, t2.name)]
            &&& after.0[t1.name] == remote_desc(s1, t1)
            &&& after.0[namespaced(s2, t2.name)] == remote_desc(s2, t2)
            &&& after.0[namespaced(s2, t2.name)].server_name == s2
            &&& after.0[namespaced(s2, t2.name)].tool_name == t2.name
        }),
{
    reveal_strlit("::");
    let empty_m = Map::<Seq<char>, MCPToolDescV>::empty();
    let empty_a = Seq::<ToolDescV>::empty();
    let ls = seq![(s1, seq![t1]), (s2, seq![t2])];
    let ns = namespaced(s2, t2.name);
    assert(ns.len() == s2.len() + 2 + t2.name.len());
    assert(ns != t2.name);

    assert(after_tools(locals, empty_m, empty_a, s1, Seq::<MCPToolV>::empty()) == (
        empty_m,
        empty_a,
    ));
    assert(seq![t1].drop_last() =~= Seq::<MCPToolV>::empty());
    assert(after_tools(locals, empty_m, empty_a, s1, seq![t1]) == insert_remote(
        locals,
        empty_m,
        empty_a,
        s1,
        t1,
    ));
    assert(!empty_m.contains_key(t1.name));
    let m1 = empty_m.insert(t1.name, remote_desc(s1, t1));
    let a1 = empty_a.push(
        ToolDescV::MCP {
            name: t1.name,
            description: t1.description,
            schema: t1.input_schema,
            server_name: s1,
        },
    );
    assert(insert_remote(locals, empty_m, empty_a, s1, t1) == (m1, a1));

    assert(after_listings(locals, empty_m, empty_a, Seq::<(Seq<char>, Seq<MCPToolV>)>::empty())
        == (empty_m, empty_a));
    let l1 = seq![(s1, seq![t1])];
    assert(l1.drop_last() =~= Seq::<(Seq<char>, Seq<MCPToolV>)>::empty());
    assert(l1.last() == (s1, seq![t1]));
    assert(after_listings(locals, empty_m, empty_a, l1) == (m1, a1));

    assert(after_tools(locals, m1, a1, s2, Seq::<MCPToolV>::empty()) == (m1, a1));
    assert(seq![t2].drop_last() =~= Seq::<MCPToolV>::empty());
    assert(after_tools(locals, m1, a1, s2, seq![t2]) == insert_remote(locals, m1, a1, s2, t2));
    assert(m1.contains_key(t2.name));

    assert(ls.drop_last() =~= l1);
    assert(ls.last() == (s2, seq![t2]));
    let after = after_listings(locals, empty_m, empty_a, ls);
    assert(after == insert_remote(locals, m1, a1, s2, t2));
    assert(after.0 == m1.insert(ns, remote_desc(s2, t2)));
    assert(after.0.dom() =~= set![t1.name, ns]);
}

/// Law: a discovered tool whose bare name a locally registered tool already
/// carries is filed under `"{server}::{tool}"`, never under the bare name —
/// no local registration is shadowed by a discovery.
pub proof fn lemma_local_names_never_shadowed(
    locals: Set<Seq<char>>,
    m: Map<Seq<char>, MCPToolDescV>,
    adds: Seq<ToolDescV>,
    server: Seq<char>,
    t: MCPToolV,
)
    requires
        locals.contains(t.name),
    ensures
        ({
            let stepped = insert_remote(locals, m, adds, server, t);
            &&& namespaced(server, t.name) != t.name
            &&& stepped.0 == m.insert(namespaced(server, t.name), remote_desc(server, t))
            &&& stepped.1 == adds.push(
                ToolDescV::MCP {
                    name: namespaced(server, t.name),
                    description: t.description,
                    schema: t.input_schema,
                    server_name: server,
                },
            )
        }),
{
    reveal_strlit("::");
    assert(namespaced(server, t.name).len() == server.len() + 2 + t.name.len());
}

} // verus!
