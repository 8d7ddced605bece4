//! The persisted configuration format: a JSON object keyed by server name,
//! each value holding the name, command, arguments and environment of one
//! server. Saving and loading round-trip exactly.

use vstd::prelude::*;
use crate::json::{
    Json,
    JsonV,
    JsonField,
    view_obj,
    view_arr,
    lemma_view_obj,
    lemma_view_arr,
    spec_lookup,
    lemma_lookup_at,
    lemma_lookup_none,
};
use crate::strutil::copy_str;
use crate::server::{
    EnvEntry,
    EnvEntryV,
    McpServerConfig,
    McpServerConfigV,
    McpServerManager,
    find_name,
    lemma_find_name_bounds,
    upsert_config,
};
use crate::types::{McpError, McpErrorV};

verus! {

/// The JSON array encoding an argument list.
pub open spec fn enc_args(args: Seq<Seq<char>>) -> Seq<JsonV> {
    Seq::new(args.len(), |i: int| JsonV::Str(args[i]))
}

/// The JSON object members encoding an environment.
pub open spec fn enc_env(env: Seq<EnvEntryV>) -> Seq<(Seq<char>, JsonV)> {
    Seq::new(env.len(), |i: int| (env[i].key, JsonV::Str(env[i].value)))
}

/// The JSON object encoding one configuration.
pub open spec fn enc_config(c: McpServerConfigV) -> JsonV {
    JsonV::Obj(
        seq![
            ("name"@, JsonV::Str(c.name)),
            ("command"@, JsonV::Str(c.command)),
            ("args"@, JsonV::Arr(enc_args(c.args))),
            ("env"@, JsonV::Obj(enc_env(c.env))),
        ],
    )
}

/// The JSON object encoding a whole registry, keyed by server name.
pub open spec fn enc_config_map(servers: Seq<McpServerConfigV>) -> JsonV {
    JsonV::Obj(Seq::new(servers.len(), |i: int| (servers[i].name, enc_config(servers[i]))))
}

/// Decode an argument list: every element must be a string.
pub open spec fn dec_args(items: Seq<JsonV>) -> Option<Seq<Seq<char>>>
    decreases items.len(),
{
    if items.len() == 0 {
        Some(Seq::empty())
    } else {
        match items[0] {
            JsonV::Str(s) => match dec_args(items.drop_first()) {
                Some(rest) => Some(seq![s] + rest),
                None => None,
            },
            _ => None,
        }
    }
}

/// Decode an environment object: every member value must be a string.
pub open spec fn dec_env(pairs: Seq<(Seq<char>, JsonV)>) -> Option<Seq<EnvEntryV>>
    decreases pairs.len(),
{
    if pairs.len() == 0 {
        Some(Seq::empty())
    } else {
        match pairs[0].1 {
            JsonV::Str(v) => match dec_env(pairs.drop_first()) {
                Some(rest) => Some(seq![EnvEntryV { key: pairs[0].0, value: v }] + rest),
                None => None,
            },
            _ => None,
        }
    }
}

/// Decode one configuration from its object form. The outer key names the
/// server; an inner `name` member must be present but the key takes
/// precedence. A missing `env` means an empty environment.
pub open spec fn dec_config(key: Seq<char>, j: JsonV) -> Option<McpServerConfigV> {
    match j {
        JsonV::Obj(pairs) => match (
            spec_lookup(pairs, "name"@),
            spec_lookup(pairs, "command"@),
            spec_lookup(pairs, "args"@),
        ) {
            (Some(JsonV::Str(_)), Some(JsonV::Str(cmd)), Some(JsonV::Arr(items))) => match (
                dec_args(items),
                match spec_lookup(pairs, "env"@) {
                    None => Some(Seq::<EnvEntryV>::empty()),
                    Some(JsonV::Obj(ep)) => dec_env(ep),
                    Some(_) => None,
                },
            ) {
                (Some(args), Some(env)) => Some(
                    McpServerConfigV { name: key, command: cmd, args, env },
                ),
                _ => None,
            },
            _ => None,
        },
        _ => None,
    }
}

/// Decode a whole registry from its object form, in member order.
pub open spec fn dec_config_map_members(pairs: Seq<(Seq<char>, JsonV)>) -> Option<
    Seq<McpServerConfigV>,
>
    decreases pairs.len(),
{
    if pairs.len() == 0 {
        Some(Seq::empty())
    } else {
        match dec_config(pairs[0].0, pairs[0].1) {
            Some(c) => match dec_config_map_members(pairs.drop_first()) {
                Some(rest) => Some(seq![c] + rest),
                None => None,
            },
            None => None,
        }
    }
}

/// Decode a whole registry.
pub open spec fn dec_config_map(j: JsonV) -> Option<Seq<McpServerConfigV>> {
    match j {
        JsonV::Obj(pairs) => dec_config_map_members(pairs),
        _ => None,
    }
}

/// Registering a sequence of configurations in order, each inserting or
/// overwriting under its name.
pub open spec fn merge_configs(
    servers: Seq<McpServerConfigV>,
    cs: Seq<McpServerConfigV>,
) -> Seq<McpServerConfigV>
    decreases cs.len(),
{
    if cs.len() == 0 {
        servers
    } else {
        merge_configs(upsert_config(servers, cs[0]), cs.drop_first())
    }
}

/// Decoding inverts encoding for argument lists.
proof fn lemma_args_round_trip(args: Seq<Seq<char>>)
    ensures
        dec_args(enc_args(args)) == Some(args),
    decreases args.len(),
{
    if args.len() > 0 {
        lemma_args_round_trip(args.drop_first());
        assert(enc_args(args).drop_first() =~= enc_args(args.drop_first()));
        assert(seq![args[0]] + args.drop_first() =~= args);
    } else {
        assert(enc_args(args).len() == 0);
        assert(args =~= Seq::<Seq<char>>::empty());
    }
}

/// Decoding inverts encoding for environments.
proof fn lemma_env_round_trip(env: Seq<EnvEntryV>)
    ensures
        dec_env(enc_env(env)) == Some(env),
    decreases env.len(),
{
    if env.len() > 0 {
        lemma_env_round_trip(env.drop_first());
        assert(enc_env(env).drop_first() =~= enc_env(env.drop_first()));
        assert(seq![EnvEntryV { key: env[0].key, value: env[0].value }] + env.drop_first()
            =~= env);
    } else {
        assert(enc_env(env).len() == 0);
        assert(env =~= Seq::<EnvEntryV>::empty());
    }
}

/// Decoding inverts encoding for one configuration, under its own name as
/// the key.
pub proof fn lemma_config_round_trip(c: McpServerConfigV)
    ensures
        dec_config(c.name, enc_config(c)) == Some(c),
{
    reveal_strlit("name");
    reveal_strlit("command");
    reveal_strlit("args");
    reveal_strlit("env");
    assert(("name"@)[0] != ("args"@)[0]);
    let fields = seq![
        ("name"@, JsonV::Str(c.name)),
        ("command"@, JsonV::Str(c.command)),
        ("args"@, JsonV::Arr(enc_args(c.args))),
        ("env"@, JsonV::Obj(enc_env(c.env))),
    ];
    assert(fields[0].0 == "name"@);
    assert(fields[1].0 == "command"@);
    assert(fields[2].0 == "args"@);
    assert(fields[3].0 == "env"@);
    lemma_lookup_at(fields, "name"@, 0);
    lemma_lookup_at(fields, "command"@, 1);
    lemma_lookup_at(fields, "args"@, 2);
    lemma_lookup_at(fields, "env"@, 3);
    lemma_args_round_trip(c.args);
    lemma_env_round_trip(c.env);
}

/// Decoding inverts encoding for a whole registry.
pub proof fn lemma_config_map_round_trip(servers: Seq<McpServerConfigV>)
    ensures
        dec_config_map(enc_config_map(servers)) == Some(servers),
    decreases servers.len(),
{
    let pairs = Seq::new(servers.len(), |i: int| (servers[i].name, enc_config(servers[i])));
    if servers.len() == 0 {
        assert(pairs.len() == 0);
        assert(servers =~= Seq::<McpServerConfigV>::empty());
    } else {
        lemma_config_map_round_trip(servers.drop_first());
        lemma_config_round_trip(servers[0]);
        assert(pairs.drop_first() =~= Seq::new(
            servers.drop_first().len(),
            |i: int| (servers.drop_first()[i].name, enc_config(servers.drop_first()[i])),
        ));
        assert(seq![servers[0]] + servers.drop_first() =~= servers);
    }
}

/// Saving a registry and loading the result into an empty manager
/// restores exactly the saved configurations, provided their names are
/// unique keys — which the manager's own invariant guarantees.
pub proof fn lemma_save_load_round_trip(servers: Seq<McpServerConfigV>)
    requires
        forall|i: int, k: int|
            0 <= i < k < servers.len() ==> (#[trigger] servers[i]).name != (
            #[trigger] servers[k]).name,
    ensures
        dec_config_map(enc_config_map(servers)) == Some(servers),
        merge_configs(Seq::empty(), servers) == servers,
{
    lemma_config_map_round_trip(servers);
    lemma_merge_into_empty(servers);
}

/// Loading decoded configurations into an empty manager appends them in
/// order, provided their names are unique keys.
pub proof fn lemma_merge_into_empty(cs: Seq<McpServerConfigV>)
    requires
        forall|i: int, k: int|
            0 <= i < k < cs.len() ==> (#[trigger] cs[i]).name != (#[trigger] cs[k]).name,
    ensures
        merge_configs(Seq::empty(), cs) == cs,
{
    lemma_merge_disjoint(Seq::empty(), cs);
    assert(Seq::<McpServerConfigV>::empty() + cs =~= cs);
}

/// Merging configurations whose names are new appends them in order.
proof fn lemma_merge_disjoint(servers: Seq<McpServerConfigV>, cs: Seq<McpServerConfigV>)
    requires
        forall|i: int, k: int|
            0 <= i < k < cs.len() ==> (#[trigger] cs[i]).name != (#[trigger] cs[k]).name,
        forall|i: int| 0 <= i < cs.len() ==> find_name(servers, (#[trigger] cs[i]).name) is None,
    ensures
        merge_configs(servers, cs) == servers + cs,
    decreases cs.len(),
{
    if cs.len() == 0 {
        assert(servers + cs =~= servers);
    } else {
        let c = cs[0];
        assert(find_name(servers, c.name) is None);
        let pushed = servers.push(c);
        assert(upsert_config(servers, c) == pushed);
        lemma_find_name_bounds(servers, c.name);
        assert forall|i: int|
            0 <= i < cs.drop_first().len() implies find_name(
            pushed,
            (#[trigger] cs.drop_first()[i]).name,
        ) is None by {
            let n = cs.drop_first()[i].name;
            assert(cs.drop_first()[i] == cs[i + 1]);
            lemma_find_name_bounds(pushed, n);
            match find_name(pushed, n) {
                Some(j) => {
                    if j < servers.len() {
                        lemma_find_name_bounds(servers, n);
                        match find_name(servers, n) {
                            Some(_) => {},
                            None => {
                                assert(servers[j].name != n);
                            },
                        }
                    } else {
                        assert(pushed[j] == c);
                        assert(cs[0].name != cs[i + 1].name);
                    }
                },
                None => {},
            }
        }
        lemma_merge_disjoint(pushed, cs.drop_first());
        assert(pushed + cs.drop_first() =~= servers + cs);
    }
}

/// Encode one configuration as a JSON object.
#[verifier::loop_isolation(false)]
pub fn encode_config(c: &McpServerConfig) -> (r: Json)
    ensures
        r@ == enc_config(c@),
{
    let mut items: Vec<Json> = Vec::new();
    let mut i: usize = 0;
    while i < c.args.len()
        invariant
            0 <= i <= c.args@.len(),
            items@.len() == i,
            forall|k: int| 0 <= k < i ==> #[trigger] items@[k]@ == JsonV::Str(c.args@[k]@),
        decreases c.args@.len() - i,
    {
        items.push(Json::Str(c.args[i].clone()));
        i = i + 1;
    }
    let mut envs: Vec<JsonField> = Vec::new();
    let mut k: usize = 0;
    while k < c.env.len()
        invariant
            0 <= k <= c.env@.len(),
            envs@.len() == k,
            forall|j: int|
                0 <= j < k ==> #[trigger] envs@[j].key@ == c.env@[j].key@ && envs@[j].value@
                    == JsonV::Str(c.env@[j].value@),
        decreases c.env@.len() - k,
    {
        let e = &c.env[k];
        envs.push(JsonField { key: e.key.clone(), value: Json::Str(e.value.clone()) });
        k = k + 1;
    }
    let mut fields: Vec<JsonField> = Vec::new();
    fields.push(JsonField { key: copy_str("name"), value: Json::Str(c.name.clone()) });
    fields.push(JsonField { key: copy_str("command"), value: Json::Str(c.command.clone()) });
    proof {
        lemma_view_arr(items@);
        assert(view_arr(items@) =~= enc_args(c@.args));
        lemma_view_obj(envs@);
        assert(view_obj(envs@) =~= enc_env(c@.env));
    }
    fields.push(JsonField { key: copy_str("args"), value: Json::Arr(items) });
    fields.push(JsonField { key: copy_str("env"), value: Json::Obj(envs) });
    proof {
        lemma_view_obj(fields@);
        assert(view_obj(fields@) =~= seq![
            ("name"@, JsonV::Str(c@.name)),
            ("command"@, JsonV::Str(c@.command)),
            ("args"@, JsonV::Arr(enc_args(c@.args))),
            ("env"@, JsonV::Obj(enc_env(c@.env))),
        ]);
    }
    Json::Obj(fields)
}

/// Decode one configuration from a JSON object under the given name.
pub fn decode_config(key: &str, j: &Json) -> (r: Option<McpServerConfig>)
    ensures
        r.deep_view() == dec_config(key@, j@),
{
    match j {
        Json::Obj(fields) => {
            match Json::lookup(fields, "name") {
                Some(Json::Str(_)) => {},
                _ => {
                    return None;
                },
            }
            let cmd = match Json::lookup(fields, "command") {
                Some(Json::Str(s)) => s,
                _ => {
                    return None;
                },
            };
            let items = match Json::lookup(fields, "args") {
                Some(Json::Arr(items)) => items,
                _ => {
                    return None;
                },
            };
            let args = match decode_args(items) {
                Some(a) => a,
                None => {
                    return None;
                },
            };
            let env = match Json::lookup(fields, "env") {
                None => {
                    let empty_env: Vec<EnvEntry> = Vec::new();
                    proof {
                        assert(empty_env.deep_view() =~= Seq::<EnvEntryV>::empty());
                    }
                    empty_env
                },
                Some(Json::Obj(ep)) => match decode_env(ep) {
                    Some(e) => e,
                    None => {
                        return None;
                    },
                },
                Some(_) => {
                    return None;
                },
            };
            Some(
                McpServerConfig { name: copy_str(key), command: cmd.clone(), args, env },
            )
        },
        _ => None,
    }
}

/// Decode an argument array: every element must be a string.
#[verifier::loop_isolation(false)]
fn decode_args(items: &Vec<Json>) -> (r: Option<Vec<String>>)
    ensures
        r.deep_view() == dec_args(view_arr(items@)),
{
    let ghost model = view_arr(items@);
    proof {
        lemma_view_arr(items@);
        assert(model.skip(0) =~= model);
    }
    let mut out: Vec<String> = Vec::new();
    let mut i: usize = 0;
    while i < items.len()
        invariant
            0 <= i <= items@.len(),
            model == view_arr(items@),
            model.len() == items@.len(),
            forall|k: int| 0 <= k < model.len() ==> #[trigger] model[k] == items@[k]@,
            out@.len() == i,
            dec_args(model) == match dec_args(model.skip(i as int)) {
                Some(rest) => Some(out.deep_view() + rest),
                None => None::<Seq<Seq<char>>>,
            },
        decreases items@.len() - i,
    {
        let s = match &items[i] {
            Json::Str(s) => s,
            _ => {
                proof {
                    assert(model.skip(i as int)[0] == model[i as int]);
                }
                return None;
            },
        };
        out.push(s.clone());
        proof {
            assert(model.skip(i as int)[0] == model[i as int]);
            assert(model.skip(i as int).drop_first() =~= model.skip(i as int + 1));
            match dec_args(model.skip(i as int + 1)) {
                Some(rest) => {
                    assert(out.deep_view() + rest =~~= old_out_join(out.deep_view(), s@, rest));
                },
                None => {},
            }
        }
        i = i + 1;
    }
    proof {
        assert(model.skip(i as int).len() == 0);
        assert(out.deep_view() + Seq::<Seq<char>>::empty() =~~= out.deep_view());
    }
    Some(out)
}

/// The list so far, its last element, and the tail, joined.
spec fn old_out_join(outv: Seq<Seq<char>>, s: Seq<char>, rest: Seq<Seq<char>>) -> Seq<Seq<char>> {
    outv.subrange(0, outv.len() - 1) + (seq![s] + rest)
}

/// Decode an environment object: every member value must be a string.
#[verifier::loop_isolation(false)]
fn decode_env(pairs: &Vec<JsonField>) -> (r: Option<Vec<EnvEntry>>)
    ensures
        r.deep_view() == dec_env(view_obj(pairs@)),
{
    let ghost model = view_obj(pairs@);
    proof {
        lemma_view_obj(pairs@);
        assert(model.skip(0) =~= model);
    }
    let mut out: Vec<EnvEntry> = Vec::new();
    let mut i: usize = 0;
    while i < pairs.len()
        invariant
            0 <= i <= pairs@.len(),
            model == view_obj(pairs@),
            model.len() == pairs@.len(),
            forall|k: int| 0 <= k < model.len() ==> #[trigger] model[k] == (
            pairs@[k].key@,
            pairs@[k].value@,
            ),
            out@.len() == i,
            dec_env(model) == match dec_env(model.skip(i as int)) {
                Some(rest) => Some(out.deep_view() + rest),
                None => None::<Seq<EnvEntryV>>,
            },
        decreases pairs@.len() - i,
    {
        let f = &pairs[i];
        let v = match &f.value {
            Json::Str(s) => s,
            _ => {
                proof {
                    assert(model.skip(i as int)[0] == model[i as int]);
                }
                return None;
            },
        };
        out.push(EnvEntry { key: f.key.clone(), value: v.clone() });
        proof {
            assert(model.skip(i as int)[0] == model[i as int]);
            assert(model.skip(i as int).drop_first() =~= model.skip(i as int + 1));
            match dec_env(model.skip(i as int + 1)) {
                Some(rest) => {
                    assert(out.deep_view() + rest =~~= out.deep_view().subrange(
                        0,
                        out.deep_view().len() - 1,
                    ) + (seq![EnvEntryV { key: f.key@, value: v@ }] + rest));
                },
                None => {},
            }
        }
        i = i + 1;
    }
    proof {
        assert(model.skip(i as int).len() == 0);
        assert(out.deep_view() + Seq::<EnvEntryV>::empty() =~~= out.deep_view());
    }
    Some(out)
}

/// Decode a whole registry object into configurations, in member order.
#[verifier::loop_isolation(false)]
pub fn decode_config_map(j: &Json) -> (r: Option<Vec<McpServerConfig>>)
    ensures
        r.deep_view() == dec_config_map(j@),
{
    match j {
        Json::Obj(fields) => {
            let ghost model = view_obj(fields@);
            proof {
                lemma_view_obj(fields@);
                assert(model.skip(0) =~= model);
            }
            let mut out: Vec<McpServerConfig> = Vec::new();
            let mut i: usize = 0;
            while i < fields.len()
                invariant
                    0 <= i <= fields@.len(),
                    model == view_obj(fields@),
                    model.len() == fields@.len(),
                    forall|k: int| 0 <= k < model.len() ==> #[trigger] model[k] == (
                    fields@[k].key@,
                    fields@[k].value@,
                    ),
                    out@.len() == i,
                    dec_config_map_members(model) == match dec_config_map_members(
                        model.skip(i as int),
                    ) {
                        Some(rest) => Some(out.deep_view() + rest),
                        None => None::<Seq<McpServerConfigV>>,
                    },
                decreases fields@.len() - i,
            {
                let f = &fields[i];
                let c = match decode_config(f.key.as_str(), &f.value) {
                    Some(c) => c,
                    None => {
                        proof {
                            assert(model.skip(i as int)[0] == model[i as int]);
                        }
                        return None;
                    },
                };
                let ghost cv = c@;
                out.push(c);
                proof {
                    assert(model.skip(i as int)[0] == model[i as int]);
                    assert(model.skip(i as int).drop_first() =~= model.skip(i as int + 1));
                    match dec_config_map_members(model.skip(i as int + 1)) {
                        Some(rest) => {
                            assert(out.deep_view() + rest =~~= out.deep_view().subrange(
                                0,
                                out.deep_view().len() - 1,
                            ) + (seq![cv] + rest));
                        },
                        None => {},
                    }
                }
                i = i + 1;
            }
            proof {
                assert(model.skip(i as int).len() == 0);
                assert(out.deep_view() + Seq::<McpServerConfigV>::empty() =~~= out.deep_view());
            }
            Some(out)
        },
        _ => None,
    }
}

impl McpServerManager {
    /// The whole registry as the persisted JSON object.
    #[verifier::loop_isolation(false)]
    pub fn save_to_json(&self) -> (r: Json)
        ensures
            r@ == enc_config_map(self.spec_servers()),
    {
        let snapshot = self.get_servers();
        let mut fields: Vec<JsonField> = Vec::new();
        let mut i: usize = 0;
        while i < snapshot.len()
            invariant
                0 <= i <= snapshot@.len(),
                snapshot.deep_view() == self.spec_servers(),
                snapshot.deep_view().len() == snapshot@.len(),
                fields@.len() == i,
                forall|k: int|
                    0 <= k < i ==> #[trigger] fields@[k].key@ == snapshot@[k]@.name
                        && fields@[k].value@ == enc_config(snapshot@[k]@),
                forall|k: int|
                    0 <= k < snapshot@.len() ==> #[trigger] snapshot.deep_view()[k]
                        == snapshot@[k]@,
            decreases snapshot@.len() - i,
        {
            let c = &snapshot[i];
            fields.push(JsonField { key: c.name.clone(), value: encode_config(c) });
            i = i + 1;
        }
        proof {
            lemma_view_obj(fields@);
            assert(view_obj(fields@) =~= Seq::new(
                self.spec_servers().len(),
                |k: int| (self.spec_servers()[k].name, enc_config(self.spec_servers()[k])),
            ));
        }
        Json::Obj(fields)
    }

    /// Merge a persisted registry object into this manager: every entry is
    /// registered under its key, overwriting same-named registrations; a
    /// malformed object changes nothing and reports a parse error.
    #[verifier::loop_isolation(false)]
    pub fn load_from_json(&mut self, j: &Json) -> (r: Result<(), McpError>)
        requires
            old(self).wf(),
        ensures
            final(self).wf(),
            final(self).spec_running() == old(self).spec_running(),
            final(self).spec_clients() == old(self).spec_clients(),
            match r {
                Ok(_) => {
                    &&& dec_config_map(j@) is Some
                    &&& final(self).spec_servers() == merge_configs(
                        old(self).spec_servers(),
                        dec_config_map(j@)->Some_0,
                    )
                },
                Err(e) => {
                    &&& dec_config_map(j@) is None
                    &&& e@ matches McpErrorV::ParseError(_)
                    &&& *final(self) == *old(self)
                },
            },
    {
        let configs = match decode_config_map(j) {
            Some(cs) => cs,
            None => {
                return Err(McpError::ParseError(copy_str("malformed configuration file")));
            },
        };
        let ghost cs = configs.deep_view();
        proof {
            assert(cs.skip(0) =~= cs);
        }
        let mut i: usize = 0;
        while i < configs.len()
            invariant
                0 <= i <= configs@.len(),
                cs == configs.deep_view(),
                cs.len() == configs@.len(),
                forall|k: int| 0 <= k < cs.len() ==> #[trigger] cs[k] == configs@[k]@,
                self.wf(),
                self.spec_running() == old(self).spec_running(),
                self.spec_clients() == old(self).spec_clients(),
                merge_configs(old(self).spec_servers(), cs) == merge_configs(
                    self.spec_servers(),
                    cs.skip(i as int),
                ),
            decreases configs@.len() - i,
        {
            let ghost pre = self.spec_servers();
            self.register_server(configs[i].duplicate());
            proof {
                assert(cs.skip(i as int)[0] == cs[i as int]);
                assert(cs.skip(i as int).drop_first() =~= cs.skip(i as int + 1));
                assert(self.spec_servers() == upsert_config(pre, cs[i as int]));
            }
            i = i + 1;
        }
        proof {
            assert(cs.skip(i as int).len() == 0);
        }
        Ok(())
    }
}

} // verus!
