//! The server manager: a registry of named server configurations, the
//! decisions behind starting, stopping and connecting to them, and
//! filesystem discovery filtering.
//!
//! The manager holds no processes and no sockets. It decides; the host
//! spawns, connects, and reports back.

use vstd::prelude::*;
use vstd::pervasive::VecAdditionalExecFns;
use crate::strutil::{copy_str, eq_str};
use crate::transport::{spec_is_http_url, is_http_url};
use crate::types::{McpError, McpErrorV};

verus! {

/// One environment variable handed to a spawned server.
#[derive(Debug)]
pub struct EnvEntry {
    pub key: String,
    pub value: String,
}

/// Model of `EnvEntry`.
pub struct EnvEntryV {
    pub key: Seq<char>,
    pub value: Seq<char>,
}

impl View for EnvEntry {
    type V = EnvEntryV;

    open spec fn view(&self) -> EnvEntryV {
        EnvEntryV { key: self.key@, value: self.value@ }
    }
}

impl DeepView for EnvEntry {
    type V = EnvEntryV;

    open spec fn deep_view(&self) -> EnvEntryV {
        self@
    }
}

/// A durable description of how to reach one MCP server: a command that is
/// either an executable path (stdio transport) or an HTTP URL (SSE
/// transport), plus arguments and environment for the stdio case.
#[derive(Debug)]
pub struct McpServerConfig {
    pub name: String,
    pub command: String,
    pub args: Vec<String>,
    pub env: Vec<EnvEntry>,
}

/// Model of `McpServerConfig`.
pub struct McpServerConfigV {
    pub name: Seq<char>,
    pub command: Seq<char>,
    pub args: Seq<Seq<char>>,
    pub env: Seq<EnvEntryV>,
}

impl View for McpServerConfig {
    type V = McpServerConfigV;

    open spec fn view(&self) -> McpServerConfigV {
        McpServerConfigV {
            name: self.name@,
            command: self.command@,
            args: self.args.deep_view(),
            env: self.env.deep_view(),
        }
    }
}

impl DeepView for McpServerConfig {
    type V = McpServerConfigV;

    open spec fn deep_view(&self) -> McpServerConfigV {
        self@
    }
}

impl McpServerConfig {
    /// A structurally equal copy of this configuration.
    pub fn duplicate(&self) -> (r: McpServerConfig)
        ensures
            r@ == self@,
    {
        let mut args: Vec<String> = Vec::new();
        let mut i: usize = 0;
        while i < self.args.len()
            invariant
                0 <= i <= self.args@.len(),
                args@.len() == i,
                forall|k: int| 0 <= k < i ==> #[trigger] args@[k]@ == self.args@[k]@,
            decreases self.args@.len() - i,
        {
            args.push(self.args[i].clone());
            i = i + 1;
        }
        let mut env: Vec<EnvEntry> = Vec::new();
        let mut k: usize = 0;
        while k < self.env.len()
            invariant
                0 <= k <= self.env@.len(),
                env@.len() == k,
                forall|j: int| 0 <= j < k ==> #[trigger] env@[j]@ == self.env@[j]@,
            decreases self.env@.len() - k,
        {
            let e = &self.env[k];
            env.push(EnvEntry { key: e.key.clone(), value: e.value.clone() });
            k = k + 1;
        }
        proof {
            assert(args.deep_view() =~~= self.args.deep_view());
            assert(env.deep_view() =~~= self.env.deep_view());
        }
        McpServerConfig {
            name: self.name.clone(),
            command: self.command.clone(),
            args,
            env,
        }
    }
}

/// A registered configuration together with its connection status, for the
/// host's status display.
#[derive(Debug)]
pub struct McpServerStatus {
    pub name: String,
    pub command: String,
    pub args: Vec<String>,
    pub env: Vec<EnvEntry>,
    pub is_running: bool,
    pub url: Option<String>,
}

/// Model of `McpServerStatus`.
pub struct McpServerStatusV {
    pub name: Seq<char>,
    pub command: Seq<char>,
    pub args: Seq<Seq<char>>,
    pub env: Seq<EnvEntryV>,
    pub is_running: bool,
    pub url: Option<Seq<char>>,
}

impl View for McpServerStatus {
    type V = McpServerStatusV;

    open spec fn view(&self) -> McpServerStatusV {
        McpServerStatusV {
            name: self.name@,
            command: self.command@,
            args: self.args.deep_view(),
            env: self.env.deep_view(),
            is_running: self.is_running,
            url: self.url.deep_view(),
        }
    }
}

impl DeepView for McpServerStatus {
    type V = McpServerStatusV;

    open spec fn deep_view(&self) -> McpServerStatusV {
        self@
    }
}

/// The status row for one configuration: HTTP commands double as the URL.
pub fn make_server_status(config: &McpServerConfig, is_running: bool) -> (r: McpServerStatus)
    ensures
        r@.name == config@.name,
        r@.command == config@.command,
        r@.args == config@.args,
        r@.env == config@.env,
        r@.is_running == is_running,
        r@.url == if spec_is_http_url(config@.command) {
            Some(config@.command)
        } else {
            None::<Seq<char>>
        },
{
    let copy = config.duplicate();
    let url = if is_http_url(config.command.as_str()) {
        Some(config.command.clone())
    } else {
        None
    };
    McpServerStatus {
        name: copy.name,
        command: copy.command,
        args: copy.args,
        env: copy.env,
        is_running,
        url,
    }
}

/// What the host must do to spawn a stdio server.
#[derive(Debug)]
pub struct SpawnSpec {
    pub command: String,
    pub args: Vec<String>,
    pub env: Vec<EnvEntry>,
}

/// Model of `SpawnSpec`.
pub struct SpawnSpecV {
    pub command: Seq<char>,
    pub args: Seq<Seq<char>>,
    pub env: Seq<EnvEntryV>,
}

impl View for SpawnSpec {
    type V = SpawnSpecV;

    open spec fn view(&self) -> SpawnSpecV {
        SpawnSpecV { command: self.command@, args: self.args.deep_view(), env: self.env.deep_view() }
    }
}

impl DeepView for SpawnSpec {
    type V = SpawnSpecV;

    open spec fn deep_view(&self) -> SpawnSpecV {
        self@
    }
}

/// What the host must tear down when a server stops.
#[derive(Debug)]
pub struct StopPlan {
    /// A live client session must be closed gracefully first.
    pub close_client: bool,
    /// An attached child process must be killed afterwards.
    pub kill_process: bool,
}

/// How the host reaches a server when a client is requested.
#[derive(Debug)]
pub enum ClientPlan {
    /// A cached client session exists; reuse it.
    Cached,
    /// Connect an SSE transport to this URL.
    Sse { url: String },
    /// Spawn (when not yet running) and attach a stdio transport.
    Stdio { spawn: SpawnSpec, need_start: bool },
}

/// The first index holding a configuration with this name.
pub open spec fn find_name(servers: Seq<McpServerConfigV>, name: Seq<char>) -> Option<int>
    decreases servers.len(),
{
    if servers.len() == 0 {
        None
    } else if servers[0].name == name {
        Some(0)
    } else {
        match find_name(servers.drop_first(), name) {
            Some(i) => Some(i + 1),
            None => None,
        }
    }
}

/// Register or overwrite: an existing entry is replaced in place, a new one
/// is appended.
pub open spec fn upsert_config(servers: Seq<McpServerConfigV>, c: McpServerConfigV) -> Seq<
    McpServerConfigV,
> {
    match find_name(servers, c.name) {
        Some(i) => servers.update(i, c),
        None => servers.push(c),
    }
}

/// The registry without any configuration of this name.
pub open spec fn remove_config(servers: Seq<McpServerConfigV>, name: Seq<char>) -> Seq<
    McpServerConfigV,
> {
    match find_name(servers, name) {
        Some(i) => servers.subrange(0, i) + servers.subrange(i + 1, servers.len() as int),
        None => servers,
    }
}

/// The process-wide registry of server configurations, the set of names
/// with an attached child process, and the set of names with a live client
/// session.
pub struct McpServerManager {
    servers: Vec<McpServerConfig>,
    running: Vec<String>,
    clients: Vec<String>,
}

impl McpServerManager {
    /// Registry well-formedness: names are unique keys; only registered
    /// names may be running or have clients; no name twice in either list.
    pub closed spec fn wf(&self) -> bool {
        &&& (forall|i: int, k: int|
            0 <= i < k < self.servers@.len() ==> (#[trigger] self.servers@[i])@.name != (
            #[trigger] self.servers@[k])@.name)
        &&& (forall|i: int|
            0 <= i < self.running@.len() ==> find_name(
                self.spec_servers(),
                (#[trigger] self.running@[i])@,
            ) is Some)
        &&& (forall|i: int, k: int|
            0 <= i < k < self.running@.len() ==> (#[trigger] self.running@[i])@ != (
            #[trigger] self.running@[k])@)
        &&& (forall|i: int|
            0 <= i < self.clients@.len() ==> find_name(
                self.spec_servers(),
                (#[trigger] self.clients@[i])@,
            ) is Some)
        &&& (forall|i: int, k: int|
            0 <= i < k < self.clients@.len() ==> (#[trigger] self.clients@[i])@ != (
            #[trigger] self.clients@[k])@)
    }

    /// The registered configurations, in registration order.
    pub closed spec fn spec_servers(&self) -> Seq<McpServerConfigV> {
        self.servers.deep_view()
    }

    /// The names with an attached child process.
    pub closed spec fn spec_running(&self) -> Seq<Seq<char>> {
        self.running.deep_view()
    }

    /// The names with a live client session.
    pub closed spec fn spec_clients(&self) -> Seq<Seq<char>> {
        self.clients.deep_view()
    }

    /// An empty registry.
    pub fn new() -> (r: McpServerManager)
        ensures
            r.wf(),
            r.spec_servers() == Seq::<McpServerConfigV>::empty(),
            r.spec_running() == Seq::<Seq<char>>::empty(),
            r.spec_clients() == Seq::<Seq<char>>::empty(),
    {
        McpServerManager { servers: Vec::new(), running: Vec::new(), clients: Vec::new() }
    }

    /// The index of the configuration with this name, if registered.
    fn find_index(&self, name: &str) -> (r: Option<usize>)
        ensures
            match r {
                Some(i) => find_name(self.spec_servers(), name@) == Some(i as int),
                None => find_name(self.spec_servers(), name@) is None,
            },
    {
        let ghost model = self.spec_servers();
        proof {
            assert(model.skip(0) =~= model);
        }
        let mut i: usize = 0;
        while i < self.servers.len()
            invariant
                0 <= i <= self.servers@.len(),
                model == self.spec_servers(),
                model.len() == self.servers@.len(),
                forall|k: int| 0 <= k < model.len() ==> #[trigger] model[k] == self.servers@[k]@,
                find_name(model, name@) == match find_name(model.skip(i as int), name@) {
                    Some(j) => Some(j + i),
                    None => None::<int>,
                },
            decreases self.servers@.len() - i,
        {
            if eq_str(self.servers[i].name.as_str(), name) {
                proof {
                    assert(model.skip(i as int)[0] == model[i as int]);
                }
                return Some(i);
            }
            proof {
                assert(model.skip(i as int)[0] == model[i as int]);
                assert(model.skip(i as int).drop_first() =~= model.skip(i as int + 1));
            }
            i = i + 1;
        }
        proof {
            assert(model.skip(i as int).len() == 0);
        }
        None
    }

    /// Insert or overwrite the configuration under its name. Does not start
    /// anything, and touches no client.
    pub fn register_server(&mut self, config: McpServerConfig)
        requires
            old(self).wf(),
        ensures
            final(self).wf(),
            final(self).spec_servers() == upsert_config(old(self).spec_servers(), config@),
            final(self).spec_running() == old(self).spec_running(),
            final(self).spec_clients() == old(self).spec_clients(),
            find_name(final(self).spec_servers(), config@.name) is Some,
    {
        let ghost pre = self.spec_servers();
        let idx = self.find_index(config.name.as_str());
        match idx {
            Some(i) => {
                proof {
                    lemma_find_name_bounds(pre, config@.name);
                }
                self.servers.set(i, config);
                proof {
                    assert(self.servers.deep_view() =~~= upsert_config(pre, config@));
                    assert(self.servers.deep_view() == upsert_config(pre, config@));
                    assert forall|a: int|
                        0 <= a < self.servers@.len() implies #[trigger] self.servers@[a]@
                        == upsert_config(pre, config@)[a] by {
                        assert(self.servers.deep_view()[a] == self.servers@[a].deep_view());
                    }
                    lemma_find_name_upsert(pre, config@, config@.name);
                    lemma_upsert_wf(pre, config@);
                    assert forall|a: int|
                        0 <= a < self.running@.len() implies find_name(
                        self.spec_servers(),
                        (#[trigger] self.running@[a])@,
                    ) is Some by {
                        lemma_find_name_upsert(pre, config@, self.running@[a]@);
                    }
                    assert forall|a: int|
                        0 <= a < self.clients@.len() implies find_name(
                        self.spec_servers(),
                        (#[trigger] self.clients@[a])@,
                    ) is Some by {
                        lemma_find_name_upsert(pre, config@, self.clients@[a]@);
                    }
                }
            },
            None => {
                self.servers.push(config);
                proof {
                    assert(self.servers.deep_view() =~~= upsert_config(pre, config@));
                    assert(self.servers.deep_view() == upsert_config(pre, config@));
                    assert forall|a: int|
                        0 <= a < self.servers@.len() implies #[trigger] self.servers@[a]@
                        == upsert_config(pre, config@)[a] by {
                        assert(self.servers.deep_view()[a] == self.servers@[a].deep_view());
                    }
                    lemma_find_name_upsert(pre, config@, config@.name);
                    lemma_find_name_bounds(pre, config@.name);
                    lemma_upsert_wf(pre, config@);
                    assert forall|a: int|
                        0 <= a < self.running@.len() implies find_name(
                        self.spec_servers(),
                        (#[trigger] self.running@[a])@,
                    ) is Some by {
                        lemma_find_name_upsert(pre, config@, self.running@[a]@);
                    }
                    assert forall|a: int|
                        0 <= a < self.clients@.len() implies find_name(
                        self.spec_servers(),
                        (#[trigger] self.clients@[a])@,
                    ) is Some by {
                        lemma_find_name_upsert(pre, config@, self.clients@[a]@);
                    }
                }
            },
        }
    }

    /// A snapshot of the registered configurations, in order, as copies.
    pub fn get_servers(&self) -> (r: Vec<McpServerConfig>)
        ensures
            r.deep_view() == self.spec_servers(),
    {
        let mut out: Vec<McpServerConfig> = Vec::new();
        let mut i: usize = 0;
        while i < self.servers.len()
            invariant
                0 <= i <= self.servers@.len(),
                out@.len() == i,
                forall|k: int| 0 <= k < i ==> #[trigger] out@[k]@ == self.servers@[k]@,
            decreases self.servers@.len() - i,
        {
            out.push(self.servers[i].duplicate());
            i = i + 1;
        }
        proof {
            assert(out.deep_view() =~~= self.spec_servers());
        }
        out
    }
}


/// Whether a name occurs in a list of names.
#[verifier::loop_isolation(false)]
fn names_contains(v: &Vec<String>, name: &str) -> (r: bool)
    ensures
        r == v.deep_view().contains(name@),
{
    let mut i: usize = 0;
    while i < v.len()
        invariant
            0 <= i <= v@.len(),
            forall|k: int| 0 <= k < i ==> #[trigger] v@[k]@ != name@,
        decreases v@.len() - i,
    {
        if eq_str(v[i].as_str(), name) {
            proof {
                assert(v.deep_view()[i as int] == name@);
            }
            return true;
        }
        i = i + 1;
    }
    proof {
        if v.deep_view().contains(name@) {
            let k = choose|k: int| 0 <= k < v.deep_view().len() && v.deep_view()[k] == name@;
            assert(v@[k]@ != name@);
        }
    }
    false
}

/// Add a name to a duplicate-free list of names, unless already present.
#[verifier::loop_isolation(false)]
fn names_add(v: &mut Vec<String>, name: &str)
    requires
        forall|i: int, k: int| 0 <= i < k < old(v)@.len() ==> #[trigger] old(v)@[i]@ != #[trigger] old(v)@[k]@,
    ensures
        forall|i: int, k: int| 0 <= i < k < final(v)@.len() ==> #[trigger] final(v)@[i]@ != #[trigger] final(v)@[k]@,
        final(v).deep_view().contains(name@),
        forall|x: Seq<char>| x != name@ ==> (final(v).deep_view().contains(x) <==> old(
            v,
        ).deep_view().contains(x)),
        old(v).deep_view().contains(name@) ==> final(v)@ == old(v)@,
{
    if !names_contains(v, name) {
        v.push(copy_str(name));
        proof {
            assert(v.deep_view()[v@.len() - 1] == name@);
            assert forall|x: Seq<char>| x != name@ implies (v.deep_view().contains(x) <==> old(
                v,
            ).deep_view().contains(x)) by {
                if v.deep_view().contains(x) {
                    let k = choose|k: int|
                        0 <= k < v.deep_view().len() && v.deep_view()[k] == x;
                    assert(k < v@.len() - 1);
                    assert(old(v).deep_view()[k] == x);
                }
                if old(v).deep_view().contains(x) {
                    let k = choose|k: int|
                        0 <= k < old(v).deep_view().len() && old(v).deep_view()[k] == x;
                    assert(v.deep_view()[k] == x);
                }
            }
            assert forall|i: int, k: int|
                0 <= i < k < v@.len() implies #[trigger] v@[i]@ != #[trigger] v@[k]@ by {
                if k == v@.len() - 1 {
                    assert(!old(v).deep_view().contains(name@));
                    if v@[i]@ == name@ {
                        assert(old(v).deep_view()[i] == name@);
                    }
                }
            }
        }
    }
}

/// Remove a name from a duplicate-free list of names, if present.
#[verifier::loop_isolation(false)]
fn names_remove(v: &mut Vec<String>, name: &str)
    requires
        forall|i: int, k: int| 0 <= i < k < old(v)@.len() ==> #[trigger] old(v)@[i]@ != #[trigger] old(v)@[k]@,
    ensures
        forall|i: int, k: int| 0 <= i < k < final(v)@.len() ==> #[trigger] final(v)@[i]@ != #[trigger] final(v)@[k]@,
        !final(v).deep_view().contains(name@),
        forall|x: Seq<char>| x != name@ ==> (final(v).deep_view().contains(x) <==> old(
            v,
        ).deep_view().contains(x)),
        !old(v).deep_view().contains(name@) ==> final(v)@ == old(v)@,
{
    let ghost orig = v@;
    let mut i: usize = 0;
    while i < v.len()
        invariant
            0 <= i <= v@.len(),
            v@ == orig,
            forall|k: int| 0 <= k < i ==> #[trigger] orig[k]@ != name@,
        decreases v@.len() - i,
    {
        if eq_str(v[i].as_str(), name) {
            proof {
                assert(old(v).deep_view()[i as int] == name@);
                assert(old(v).deep_view().contains(name@));
            }
            v.remove(i);
            proof {
                assert(v@ =~= orig.subrange(0, i as int) + orig.subrange(
                    i as int + 1,
                    orig.len() as int,
                ));
                assert forall|a: int, b: int|
                    0 <= a < b < v@.len() implies #[trigger] v@[a]@ != #[trigger] v@[b]@ by {
                    let fa: int = if a < i { a } else { a + 1 };
                    let fb: int = if b < i { b } else { b + 1 };
                    assert(v@[a] == orig[fa]);
                    assert(v@[b] == orig[fb]);
                }
                assert(!v.deep_view().contains(name@)) by {
                    if v.deep_view().contains(name@) {
                        let k = choose|k: int|
                            0 <= k < v.deep_view().len() && v.deep_view()[k] == name@;
                        let fk: int = if k < i { k } else { k + 1 };
                        assert(v@[k] == orig[fk]);
                        assert(orig[i as int]@ == name@);
                        if fk < i {
                            assert(orig[fk]@ != name@);
                        } else {
                            assert(orig[i as int]@ != orig[fk]@);
                        }
                    }
                }
                assert forall|x: Seq<char>| x != name@ implies (v.deep_view().contains(x) <==> old(
                    v,
                ).deep_view().contains(x)) by {
                    if v.deep_view().contains(x) {
                        let k = choose|k: int|
                            0 <= k < v.deep_view().len() && v.deep_view()[k] == x;
                        let fk: int = if k < i { k } else { k + 1 };
                        assert(v@[k] == orig[fk]);
                        assert(old(v).deep_view()[fk] == x);
                    }
                    if old(v).deep_view().contains(x) {
                        let k = choose|k: int|
                            0 <= k < orig.len() && old(v).deep_view()[k] == x;
                        assert(orig[k]@ == x);
                        if k < i {
                            assert(v@[k] == orig[k]);
                            assert(v.deep_view()[k] == x);
                        } else if k > i {
                            assert(v@[k - 1] == orig[k]);
                            assert(v.deep_view()[k - 1] == x);
                        } else {
                            assert(orig[i as int]@ == name@);
                        }
                    }
                }
            }
            return ;
        }
        i = i + 1;
    }
    proof {
        if old(v).deep_view().contains(name@) {
            let k = choose|k: int| 0 <= k < orig.len() && old(v).deep_view()[k] == name@;
            assert(orig[k]@ != name@);
        }
    }
}

impl McpServerManager {
    /// Whether a child process is attached to this name.
    pub fn is_running(&self, name: &str) -> (r: bool)
        ensures
            r == self.spec_running().contains(name@),
    {
        names_contains(&self.running, name)
    }

    /// Whether a live client session exists for this name.
    pub fn has_client(&self, name: &str) -> (r: bool)
        ensures
            r == self.spec_clients().contains(name@),
    {
        names_contains(&self.clients, name)
    }

    /// The configuration registered under this name, as a copy.
    pub fn lookup_config(&self, name: &str) -> (r: Option<McpServerConfig>)
        ensures
            match r {
                Some(c) => {
                    &&& find_name(self.spec_servers(), name@) is Some
                    &&& c@ == self.spec_servers()[find_name(self.spec_servers(), name@)->Some_0]
                },
                None => find_name(self.spec_servers(), name@) is None,
            },
    {
        match self.find_index(name) {
            Some(i) => {
                proof {
                    lemma_find_name_bounds(self.spec_servers(), name@);
                }
                Some(self.servers[i].duplicate())
            },
            None => None,
        }
    }

    /// Tear down whatever is attached to this name: the client entry and the
    /// running mark go away; the registration stays. Unknown names succeed
    /// with nothing to do.
    pub fn stop_server(&mut self, name: &str) -> (r: StopPlan)
        requires
            old(self).wf(),
        ensures
            final(self).wf(),
            final(self).spec_servers() == old(self).spec_servers(),
            r.close_client == old(self).spec_clients().contains(name@),
            r.kill_process == old(self).spec_running().contains(name@),
            !final(self).spec_clients().contains(name@),
            !final(self).spec_running().contains(name@),
            forall|x: Seq<char>| x != name@ ==> (final(self).spec_clients().contains(x) <==> old(
                self,
            ).spec_clients().contains(x)),
            forall|x: Seq<char>| x != name@ ==> (final(self).spec_running().contains(x) <==> old(
                self,
            ).spec_running().contains(x)),
    {
        let close_client = names_contains(&self.clients, name);
        let kill_process = names_contains(&self.running, name);
        names_remove(&mut self.clients, name);
        names_remove(&mut self.running, name);
        proof {
            assert forall|a: int|
                0 <= a < self.running@.len() implies find_name(
                self.spec_servers(),
                (#[trigger] self.running@[a])@,
            ) is Some by {
                assert(self.running.deep_view()[a] == self.running@[a]@);
                assert(old(self).spec_running().contains(self.running@[a]@));
            }
            assert forall|a: int|
                0 <= a < self.clients@.len() implies find_name(
                self.spec_servers(),
                (#[trigger] self.clients@[a])@,
            ) is Some by {
                assert(self.clients.deep_view()[a] == self.clients@[a]@);
                assert(old(self).spec_clients().contains(self.clients@[a]@));
            }
        }
        StopPlan { close_client, kill_process }
    }

    /// Stop whatever is attached, then remove the registration itself: the
    /// name is gone from the registry, the clients and the running marks.
    /// Unknown names succeed with nothing to do.
    pub fn unregister_server(&mut self, name: &str) -> (r: StopPlan)
        requires
            old(self).wf(),
        ensures
            final(self).wf(),
            final(self).spec_servers() == remove_config(old(self).spec_servers(), name@),
            find_name(final(self).spec_servers(), name@) is None,
            r.close_client == old(self).spec_clients().contains(name@),
            r.kill_process == old(self).spec_running().contains(name@),
            !final(self).spec_clients().contains(name@),
            !final(self).spec_running().contains(name@),
            forall|x: Seq<char>| x != name@ ==> (final(self).spec_clients().contains(x) <==> old(
                self,
            ).spec_clients().contains(x)),
            forall|x: Seq<char>| x != name@ ==> (final(self).spec_running().contains(x) <==> old(
                self,
            ).spec_running().contains(x)),
    {
        let plan = self.stop_server(name);
        let ghost mid = self.spec_servers();
        match self.find_index(name) {
            Some(i) => {
                proof {
                    lemma_find_name_bounds(mid, name@);
                }
                self.servers.remove(i);
                proof {
                    assert(self.servers.deep_view() =~~= mid.subrange(0, i as int) + mid.subrange(
                        i as int + 1,
                        mid.len() as int,
                    ));
                    lemma_remove_config_wf(mid, name@);
                    lemma_find_name_remove_gone(mid, name@);
                    assert forall|a: int|
                        0 <= a < self.running@.len() implies find_name(
                        self.spec_servers(),
                        (#[trigger] self.running@[a])@,
                    ) is Some by {
                        assert(self.running.deep_view()[a] == self.running@[a]@);
                        lemma_find_name_remove_other(mid, name@, self.running@[a]@);
                    }
                    assert forall|a: int|
                        0 <= a < self.clients@.len() implies find_name(
                        self.spec_servers(),
                        (#[trigger] self.clients@[a])@,
                    ) is Some by {
                        assert(self.clients.deep_view()[a] == self.clients@[a]@);
                        lemma_find_name_remove_other(mid, name@, self.clients@[a]@);
                    }
                }
            },
            None => {
                proof {
                    lemma_find_name_bounds(mid, name@);
                }
            },
        }
        plan
    }

    /// The spawn the host must perform to start this server, if any: `None`
    /// inside `Ok` means it is already running. Only the host's report
    /// ([`Self::note_started`]) marks it running, so a failed spawn leaves
    /// the registration intact and the server stopped.
    pub fn start_plan(&self, name: &str) -> (r: Result<Option<SpawnSpec>, McpError>)
        requires
            self.wf(),
        ensures
            match r {
                Ok(plan) => {
                    &&& find_name(self.spec_servers(), name@) is Some
                    &&& match plan {
                        Some(spawn) => {
                            let c = self.spec_servers()[find_name(
                                self.spec_servers(),
                                name@,
                            )->Some_0];
                            &&& !self.spec_running().contains(name@)
                            &&& spawn@.command == c.command
                            &&& spawn@.args == c.args
                            &&& spawn@.env == c.env
                        },
                        None => self.spec_running().contains(name@),
                    }
                },
                Err(e) => {
                    &&& find_name(self.spec_servers(), name@) is None
                    &&& e@ matches McpErrorV::InternalError(_)
                },
            },
    {
        match self.lookup_config(name) {
            Some(config) => {
                if self.is_running(name) {
                    Ok(None)
                } else {
                    Ok(
                        Some(
                            SpawnSpec { command: config.command, args: config.args, env: config.env },
                        ),
                    )
                }
            },
            None => Err(McpError::InternalError(copy_str("server not found"))),
        }
    }

    /// The host spawned the child: mark the name running.
    pub fn note_started(&mut self, name: &str)
        requires
            old(self).wf(),
            find_name(old(self).spec_servers(), name@) is Some,
        ensures
            final(self).wf(),
            final(self).spec_servers() == old(self).spec_servers(),
            final(self).spec_clients() == old(self).spec_clients(),
            final(self).spec_running().contains(name@),
            forall|x: Seq<char>| x != name@ ==> (final(self).spec_running().contains(x) <==> old(
                self,
            ).spec_running().contains(x)),
    {
        names_add(&mut self.running, name);
        proof {
            assert forall|a: int|
                0 <= a < self.running@.len() implies find_name(
                self.spec_servers(),
                (#[trigger] self.running@[a])@,
            ) is Some by {
                assert(self.running.deep_view()[a] == self.running@[a]@);
                if self.running@[a]@ != name@ {
                    assert(old(self).spec_running().contains(self.running@[a]@));
                }
            }
        }
    }

    /// The host finished building and initializing a client: cache it under
    /// the name.
    pub fn note_client_ready(&mut self, name: &str)
        requires
            old(self).wf(),
            find_name(old(self).spec_servers(), name@) is Some,
        ensures
            final(self).wf(),
            final(self).spec_servers() == old(self).spec_servers(),
            final(self).spec_running() == old(self).spec_running(),
            final(self).spec_clients().contains(name@),
            forall|x: Seq<char>| x != name@ ==> (final(self).spec_clients().contains(x) <==> old(
                self,
            ).spec_clients().contains(x)),
    {
        names_add(&mut self.clients, name);
        proof {
            assert forall|a: int|
                0 <= a < self.clients@.len() implies find_name(
                self.spec_servers(),
                (#[trigger] self.clients@[a])@,
            ) is Some by {
                assert(self.clients.deep_view()[a] == self.clients@[a]@);
                if self.clients@[a]@ != name@ {
                    assert(old(self).spec_clients().contains(self.clients@[a]@));
                }
            }
        }
    }

    /// How to obtain a client for this name: reuse the cached session, or
    /// build the transport the command prefix selects — an HTTP or HTTPS URL
    /// means SSE, anything else means a stdio child, started first when it
    /// is not yet running.
    pub fn get_client_plan(&self, name: &str) -> (r: Result<ClientPlan, McpError>)
        requires
            self.wf(),
        ensures
            match r {
                Ok(plan) => match plan {
                    ClientPlan::Cached => self.spec_clients().contains(name@),
                    ClientPlan::Sse { url } => {
                        &&& !self.spec_clients().contains(name@)
                        &&& find_name(self.spec_servers(), name@) is Some
                        &&& {
                            let c = self.spec_servers()[find_name(
                                self.spec_servers(),
                                name@,
                            )->Some_0];
                            url@ == c.command && spec_is_http_url(c.command)
                        }
                    },
                    ClientPlan::Stdio { spawn, need_start } => {
                        &&& !self.spec_clients().contains(name@)
                        &&& find_name(self.spec_servers(), name@) is Some
                        &&& {
                            let c = self.spec_servers()[find_name(
                                self.spec_servers(),
                                name@,
                            )->Some_0];
                            &&& !spec_is_http_url(c.command)
                            &&& spawn@.command == c.command
                            &&& spawn@.args == c.args
                            &&& spawn@.env == c.env
                            &&& need_start == !self.spec_running().contains(name@)
                        }
                    },
                },
                Err(e) => {
                    &&& !self.spec_clients().contains(name@)
                    &&& find_name(self.spec_servers(), name@) is None
                    &&& e@ matches McpErrorV::InternalError(_)
                },
            },
    {
        if self.has_client(name) {
            return Ok(ClientPlan::Cached);
        }
        match self.lookup_config(name) {
            Some(config) => {
                if is_http_url(config.command.as_str()) {
                    Ok(ClientPlan::Sse { url: config.command })
                } else {
                    let need_start = !self.is_running(name);
                    Ok(
                        ClientPlan::Stdio {
                            spawn: SpawnSpec {
                                command: config.command,
                                args: config.args,
                                env: config.env,
                            },
                            need_start,
                        },
                    )
                }
            },
            None => Err(McpError::InternalError(copy_str("server not found"))),
        }
    }
}

/// Removing a name keeps the remaining names unique.
proof fn lemma_remove_config_wf(servers: Seq<McpServerConfigV>, name: Seq<char>)
    requires
        forall|i: int, k: int|
            0 <= i < k < servers.len() ==> (#[trigger] servers[i]).name != (
            #[trigger] servers[k]).name,
    ensures
        forall|i: int, k: int|
            0 <= i < k < remove_config(servers, name).len() ==> (#[trigger] remove_config(
                servers,
                name,
            )[i]).name != (#[trigger] remove_config(servers, name)[k]).name,
{
    lemma_find_name_bounds(servers, name);
    let out = remove_config(servers, name);
    match find_name(servers, name) {
        Some(j) => {
            assert forall|i: int, k: int|
                0 <= i < k < out.len() implies (#[trigger] out[i]).name != (
            #[trigger] out[k]).name by {
                let fi: int = if i < j { i } else { i + 1 };
                let fk: int = if k < j { k } else { k + 1 };
                assert(out[i] == servers[fi]);
                assert(out[k] == servers[fk]);
            }
        },
        None => {},
    }
}

/// After removal the name is not found.
proof fn lemma_find_name_remove_gone(servers: Seq<McpServerConfigV>, name: Seq<char>)
    requires
        forall|i: int, k: int|
            0 <= i < k < servers.len() ==> (#[trigger] servers[i]).name != (
            #[trigger] servers[k]).name,
    ensures
        find_name(remove_config(servers, name), name) is None,
{
    lemma_find_name_bounds(servers, name);
    let out = remove_config(servers, name);
    match find_name(servers, name) {
        Some(j) => {
            lemma_find_name_bounds(out, name);
            match find_name(out, name) {
                Some(k) => {
                    let fk: int = if k < j { k } else { k + 1 };
                    assert(out[k] == servers[fk]);
                    if fk < j {
                        assert(servers[fk].name != servers[j].name);
                    } else {
                        assert(servers[j].name != servers[fk].name);
                    }
                },
                None => {},
            }
        },
        None => {
            lemma_find_name_bounds(out, name);
            match find_name(out, name) {
                Some(k) => {
                    assert(out[k].name != name);
                },
                None => {},
            }
        },
    }
}

/// Other names survive a removal.
proof fn lemma_find_name_remove_other(
    servers: Seq<McpServerConfigV>,
    name: Seq<char>,
    other: Seq<char>,
)
    requires
        find_name(servers, other) is Some,
        other != name,
    ensures
        find_name(remove_config(servers, other), other) is Some || find_name(
            remove_config(servers, name),
            other,
        ) is Some,
        find_name(remove_config(servers, name), other) is Some,
{
    lemma_find_name_bounds(servers, name);
    lemma_find_name_bounds(servers, other);
    let out = remove_config(servers, name);
    let j = find_name(servers, other)->Some_0;
    match find_name(servers, name) {
        Some(i) => {
            if i == j {
                assert(servers[j].name == other && servers[j].name == name);
            } else if j < i {
                assert(out[j] == servers[j]);
                lemma_find_name_bounds(out, other);
                match find_name(out, other) {
                    Some(_) => {},
                    None => {
                        assert(out[j].name != other);
                    },
                }
            } else {
                assert(out[j - 1] == servers[j]);
                lemma_find_name_bounds(out, other);
                match find_name(out, other) {
                    Some(_) => {},
                    None => {
                        assert(out[j - 1].name != other);
                    },
                }
            }
        },
        None => {},
    }
}


/// The identity this library announces when it builds a client.
pub fn client_identity() -> (r: (&'static str, &'static str))
    ensures
        r.0@ == "mlFace"@,
        r.1@ == "1.0.0"@,
{
    ("mlFace", "1.0.0")
}

/// How to probe a prospective server address: HTTP URLs get a full
/// connect-initialize-close cycle; anything else is probed by spawning the
/// command with a help flag.
#[derive(Debug)]
pub enum ProbeKind {
    /// Connect over SSE and try to initialize.
    Http,
    /// Try to spawn the executable.
    Command,
}

/// Decide how to probe this address.
pub fn probe_kind(url: &str) -> (r: ProbeKind)
    ensures
        spec_is_http_url(url@) ==> r is Http,
        !spec_is_http_url(url@) ==> r is Command,
{
    if is_http_url(url) {
        ProbeKind::Http
    } else {
        ProbeKind::Command
    }
}

/// One directory entry examined during discovery, together with what the
/// host observed about it.
#[derive(Debug)]
pub struct DiscoveryProbe {
    /// The file name, which becomes the prospective server's name.
    pub name: String,
    /// The full path, which becomes the prospective server's command.
    pub path: String,
    /// Whether the entry is a regular file.
    pub is_file: bool,
    /// The POSIX permission bits of the entry.
    pub mode: u32,
    /// Whether the host's connection probe of the path succeeded.
    pub probe_ok: bool,
}

/// Model of `DiscoveryProbe`.
pub struct DiscoveryProbeV {
    pub name: Seq<char>,
    pub path: Seq<char>,
    pub is_file: bool,
    pub mode: u32,
    pub probe_ok: bool,
}

impl View for DiscoveryProbe {
    type V = DiscoveryProbeV;

    open spec fn view(&self) -> DiscoveryProbeV {
        DiscoveryProbeV {
            name: self.name@,
            path: self.path@,
            is_file: self.is_file,
            mode: self.mode,
            probe_ok: self.probe_ok,
        }
    }
}

impl DeepView for DiscoveryProbe {
    type V = DiscoveryProbeV;

    open spec fn deep_view(&self) -> DiscoveryProbeV {
        self@
    }
}

/// Discovery considers only regular files with at least one execute bit.
pub open spec fn spec_is_executable_candidate(is_file: bool, mode: u32) -> bool {
    is_file && mode & 0o111 != 0
}

/// Whether a directory entry can be a server executable at all.
pub fn is_executable_candidate(is_file: bool, mode: u32) -> (r: bool)
    ensures
        r == spec_is_executable_candidate(is_file, mode),
{
    is_file && mode & 0o111 != 0
}

/// The prospective configuration of one discovered entry, if any: a regular
/// executable file whose probe succeeded becomes a config with its file
/// name, its path as the command, and empty arguments and environment.
pub open spec fn spec_discovered_one(e: DiscoveryProbeV) -> Option<McpServerConfigV> {
    if spec_is_executable_candidate(e.is_file, e.mode) && e.probe_ok {
        Some(
            McpServerConfigV {
                name: e.name,
                command: e.path,
                args: Seq::empty(),
                env: Seq::empty(),
            },
        )
    } else {
        None
    }
}

/// The prospective configurations of a directory scan, in directory order.
pub open spec fn spec_discovered(entries: Seq<DiscoveryProbeV>) -> Seq<McpServerConfigV>
    decreases entries.len(),
{
    if entries.len() == 0 {
        Seq::empty()
    } else {
        match spec_discovered_one(entries.last()) {
            Some(c) => spec_discovered(entries.drop_last()).push(c),
            None => spec_discovered(entries.drop_last()),
        }
    }
}

/// Turn the host's directory scan into prospective configurations: entries
/// that are not regular executable files, and entries whose probe failed,
/// are skipped; every other entry yields a config, so one bad entry never
/// aborts the scan.
#[verifier::loop_isolation(false)]
pub fn collect_discovered(entries: &Vec<DiscoveryProbe>) -> (r: Vec<McpServerConfig>)
    ensures
        r.deep_view() == spec_discovered(entries.deep_view()),
{
    let mut out: Vec<McpServerConfig> = Vec::new();
    let mut i: usize = 0;
    while i < entries.len()
        invariant
            0 <= i <= entries@.len(),
            out.deep_view() =~~= spec_discovered(entries.deep_view().subrange(0, i as int)),
        decreases entries@.len() - i,
    {
        let e = &entries[i];
        if is_executable_candidate(e.is_file, e.mode) && e.probe_ok {
            let cfg = McpServerConfig {
                name: e.name.clone(),
                command: e.path.clone(),
                args: Vec::new(),
                env: Vec::new(),
            };
            proof {
                assert(cfg@.args =~= Seq::<Seq<char>>::empty());
                assert(cfg@.env =~= Seq::<EnvEntryV>::empty());
                assert(cfg@ == spec_discovered_one(entries.deep_view()[i as int])->Some_0);
            }
            out.push(cfg);
        }
        proof {
            let pre = entries.deep_view().subrange(0, i as int);
            let post = entries.deep_view().subrange(0, i + 1 as int);
            assert(post.drop_last() =~= pre);
            assert(post.last() == entries.deep_view()[i as int]);
            assert(out.deep_view() =~~= spec_discovered(post));
        }
        i = i + 1;
    }
    proof {
        assert(entries.deep_view().subrange(0, entries.deep_view().len() as int)
            =~= entries.deep_view());
        assert(out.deep_view() =~~= spec_discovered(entries.deep_view()));
    }
    out
}

/// `find_name` returns an index into the sequence, holding that name.
pub proof fn lemma_find_name_bounds(servers: Seq<McpServerConfigV>, name: Seq<char>)
    ensures
        match find_name(servers, name) {
            Some(i) => 0 <= i < servers.len() && servers[i].name == name,
            None => forall|k: int| 0 <= k < servers.len() ==> (#[trigger] servers[k]).name != name,
        },
    decreases servers.len(),
{
    if servers.len() > 0 {
        lemma_find_name_bounds(servers.drop_first(), name);
        if servers[0].name != name {
            match find_name(servers.drop_first(), name) {
                Some(i) => {
                    assert(servers.drop_first()[i] == servers[i + 1]);
                },
                None => {
                    assert forall|k: int|
                        0 <= k < servers.len() implies (#[trigger] servers[k]).name != name by {
                        if k > 0 {
                            assert(servers.drop_first()[k - 1] == servers[k]);
                        }
                    }
                },
            }
        }
    }
}

/// Replacing or appending a configuration keeps names unique.
proof fn lemma_upsert_wf(servers: Seq<McpServerConfigV>, c: McpServerConfigV)
    requires
        forall|i: int, k: int|
            0 <= i < k < servers.len() ==> (#[trigger] servers[i]).name != (
            #[trigger] servers[k]).name,
    ensures
        forall|i: int, k: int|
            0 <= i < k < upsert_config(servers, c).len() ==> (#[trigger] upsert_config(
                servers,
                c,
            )[i]).name != (#[trigger] upsert_config(servers, c)[k]).name,
{
    lemma_find_name_bounds(servers, c.name);
    let out = upsert_config(servers, c);
    match find_name(servers, c.name) {
        Some(j) => {
            assert forall|i: int, k: int|
                0 <= i < k < out.len() implies (#[trigger] out[i]).name != (
            #[trigger] out[k]).name by {
                if i != j && k != j {
                    assert(out[i] == servers[i]);
                    assert(out[k] == servers[k]);
                } else if i == j {
                    assert(out[k] == servers[k]);
                    assert(servers[j].name == c.name);
                } else {
                    assert(out[i] == servers[i]);
                    assert(servers[j].name == c.name);
                }
            }
        },
        None => {
            assert forall|i: int, k: int|
                0 <= i < k < out.len() implies (#[trigger] out[i]).name != (
            #[trigger] out[k]).name by {
                if k == servers.len() {
                    assert(out[i] == servers[i]);
                    assert(out[k] == c);
                } else {
                    assert(out[i] == servers[i]);
                    assert(out[k] == servers[k]);
                }
            }
        },
    }
}

/// A name found before an upsert is still found after it, and the upserted
/// name is found.
proof fn lemma_find_name_upsert(servers: Seq<McpServerConfigV>, c: McpServerConfigV, name: Seq<char>)
    requires
        find_name(servers, name) is Some || name == c.name,
    ensures
        find_name(upsert_config(servers, c), name) is Some,
{
    lemma_find_name_bounds(servers, c.name);
    let out = upsert_config(servers, c);
    if name == c.name {
        match find_name(servers, c.name) {
            Some(j) => {
                assert(out[j].name == name);
                lemma_find_name_bounds(out, name);
            },
            None => {
                assert(out[servers.len() as int].name == name);
                lemma_find_name_bounds(out, name);
            },
        }
    } else {
        lemma_find_name_bounds(servers, name);
        let j = find_name(servers, name)->Some_0;
        match find_name(servers, c.name) {
            Some(i) => {
                if i == j {
                    assert(servers[i].name == c.name);
                } else {
                    assert(out[j] == servers[j]);
                    lemma_find_name_bounds(out, name);
                }
            },
            None => {
                assert(out[j] == servers[j]);
                lemma_find_name_bounds(out, name);
            },
        }
    }
}

} // verus!
