//! The compile pipeline: assemble one manifest per namespace (plugins,
//! inlined plugins, the application itself), check set references,
//! validate capabilities against the result, and produce the persisted
//! documents and the capability schema.

use vstd::prelude::*;
use vstd::string::StringExecFns;

use crate::autogen::{
    allow_description, allow_id, autogenerate_command_permissions, deny_description, deny_id,
    generated_ids, lemma_allow_deny_disjoint, lemma_allow_id_injective, lemma_deny_id_injective,
};
use crate::builder::{
    build_manifest, check_set_references, has_collision, materialize_default_rule,
    manifest_matches_records, member_resolves_all, rec_is_perm, rec_is_set, records_collide,
    AclRecord, AppManifest, DefaultPermissionRule, InlinedPlugin,
};
use crate::json::{json_text, JsonValue};
use crate::model::{AclError, Capability, DefaultPermission, Manifest};
use crate::ordmap::OrdMap;
use crate::persist::{save_acl_manifests, save_capabilities, spec_acl_json, spec_capabilities_json};
use crate::schema::{generate_schema, spec_schema};
use crate::validate::{cap_ok, manifests_wf, validate_capabilities};

verus! {

/// One plugin's parsed permission-definition records, with its optional
/// global scope schema.
pub struct PluginRecords {
    pub namespace: String,
    pub records: Vec<AclRecord>,
    pub global_scope_schema: Option<JsonValue>,
}

/// One inlined plugin: its configuration plus the records parsed from its
/// own permission files.
pub struct InlinedPluginInput {
    pub name: String,
    pub plugin: InlinedPlugin,
    pub file_records: Vec<AclRecord>,
}

/// Everything one build run persists.
pub struct BuildOutput {
    pub manifests: OrdMap<Manifest>,
    pub manifests_json: String,
    pub capabilities_json: String,
    pub schema_json: String,
}

/// Builds one manifest per plugin namespace from its parsed records.
/// Succeeds exactly when no namespace's records collide and no two
/// plugins share a namespace.
pub fn get_manifests_from_plugins(plugins: Vec<PluginRecords>) -> (r: Result<
    OrdMap<Manifest>,
    AclError,
>)
    ensures
        r matches Ok(ms) ==> manifests_wf(ms) && (forall|i: int|
            0 <= i < plugins@.len() ==> ms.spec_contains(
                (#[trigger] plugins@[i]).namespace@,
            ) && manifest_matches_records(
                plugins@[i].records@,
                plugins@[i].global_scope_schema,
                ms.spec_at(plugins@[i].namespace@),
            )) && (forall|k: Seq<char>|
            #[trigger] ms.spec_contains(k) ==> exists|i: int|
                0 <= i < plugins@.len() && (#[trigger] plugins@[i]).namespace@ == k),
        r matches Err(e) ==> e matches AclError::DuplicateIdentifier {
            namespace: ns,
            identifier: id,
        } && (exists|i: int| 0 <= i < plugins@.len() && (#[trigger] plugins@[i]).namespace@ == ns@),
        r is Ok <==> ((forall|i: int|
            0 <= i < plugins@.len() ==> !has_collision((#[trigger] plugins@[i]).records@)) && (
        forall|i: int, j: int|
            0 <= i < j < plugins@.len() ==> (#[trigger] plugins@[i]).namespace@ != (
            #[trigger] plugins@[j]).namespace@)),
{
    let ghost ps0 = plugins@;
    let mut plugins = plugins;
    let mut ms: OrdMap<Manifest> = OrdMap::new();
    let mut idx: usize = 0;
    let n = plugins.len();
    #[verifier::loop_isolation(false)]
    while idx < n
        invariant
            n == ps0.len(),
            0 <= idx <= n,
            plugins@ == ps0.subrange(idx as int, n as int),
            ms.wf(),
            forall|k: Seq<char>| #[trigger] ms.spec_contains(k) ==> ms.spec_at(k).wf(),
            forall|i: int|
                0 <= i < idx ==> ms.spec_contains((#[trigger] ps0[i]).namespace@)
                    && manifest_matches_records(
                    ps0[i].records@,
                    ps0[i].global_scope_schema,
                    ms.spec_at(ps0[i].namespace@),
                ),
            forall|i: int| 0 <= i < idx ==> !has_collision((#[trigger] ps0[i]).records@),
            forall|k: Seq<char>|
                #[trigger] ms.spec_contains(k) ==> exists|i: int|
                    0 <= i < idx && (#[trigger] ps0[i]).namespace@ == k,
            forall|i: int, j: int|
                0 <= i < j < idx ==> (#[trigger] ps0[i]).namespace@ != (
                #[trigger] ps0[j]).namespace@,
        decreases n - idx,
    {
        let p = plugins.remove(0);
        proof {
            assert(p == ps0[idx as int]);
            assert(plugins@ =~= ps0.subrange(idx + 1, n as int));
        }
        let namespace = p.namespace;
        let err_ns = namespace.clone();
        let ghost nsv = namespace@;
        let m = match build_manifest(namespace.as_str(), p.records, p.global_scope_schema) {
            Ok(m) => m,
            Err(e) => {
                return Err(e);
            },
        };
        let ghost prev = ms;
        if !ms.insert_or_fail(namespace, m) {
            proof {
                let w = choose|w: int| 0 <= w < idx && (#[trigger] ps0[w]).namespace@ == nsv;
                assert(ps0[w].namespace@ == ps0[idx as int].namespace@);
            }
            return Err(
                AclError::DuplicateIdentifier {
                    namespace: err_ns.clone(),
                    identifier: err_ns,
                },
            );
        }
        proof {
            assert forall|k: Seq<char>| #[trigger] ms.spec_contains(k) implies ms.spec_at(k).wf()
                by {
                if k != ps0[idx as int].namespace@ {
                    assert(prev.spec_contains(k));
                }
            }
            assert forall|k: Seq<char>| #[trigger] ms.spec_contains(k) implies exists|i: int|
                0 <= i < idx + 1 && (#[trigger] ps0[i]).namespace@ == k by {
                if k == nsv {
                    assert(ps0[idx as int].namespace@ == k);
                } else {
                    assert(prev.spec_contains(k));
                }
            }
            assert forall|i: int, j: int| 0 <= i < j < idx + 1 implies (
            #[trigger] ps0[i]).namespace@ != (#[trigger] ps0[j]).namespace@ by {
                if j == idx as int && ps0[i].namespace@ == ps0[j].namespace@ {
                    assert(prev.spec_contains(ps0[i].namespace@));
                }
            }
            assert forall|i: int|
                0 <= i < idx + 1 implies ms.spec_contains((#[trigger] ps0[i]).namespace@)
                && manifest_matches_records(
                ps0[i].records@,
                ps0[i].global_scope_schema,
                ms.spec_at(ps0[i].namespace@),
            ) by {
                if i < idx {
                    assert(prev.spec_contains(ps0[i].namespace@));
                    assert(ps0[i].namespace@ != nsv);
                    assert(ms.spec_at(ps0[i].namespace@) == prev.spec_at(ps0[i].namespace@));
                } else {
                    assert(ms.spec_at(nsv) == m);
                }
            }
        }
        idx = idx + 1;
    }
    proof {
        assert forall|i: int| 0 <= i < ms.spec_len() implies (#[trigger] ms.spec_vals()[i]).wf()
            by {
            ms.lemma_index_of(i);
            assert(ms.spec_contains(ms.pairs@[i].0@));
            assert(ms.spec_vals()[i] == ms.pairs@[i].1);
        }
    }
    Ok(ms)
}

/// Builds one manifest per inlined plugin: permissions autogenerated from
/// its commands, its default-permission rule materialized as a literal
/// record, and its file-parsed records folded in. Two inlined plugins
/// sharing a name fail with a duplicate-identifier error.
pub fn inline_plugins(plugins: Vec<InlinedPluginInput>) -> (r: Result<OrdMap<Manifest>, AclError>)
    ensures
        r is Ok <==> ((forall|i: int|
            0 <= i < plugins@.len() ==> inline_inputs_ok(
                (#[trigger] plugins@[i]).plugin,
                plugins@[i].file_records@,
            )) && (forall|i: int, j: int|
            0 <= i < j < plugins@.len() ==> (#[trigger] plugins@[i]).name@ != (
            #[trigger] plugins@[j]).name@)),
        r matches Ok(ms) ==> manifests_wf(ms) && (forall|i: int|
            0 <= i < plugins@.len() ==> ms.spec_contains((#[trigger] plugins@[i]).name@)) && (
        forall|k: Seq<char>|
            #[trigger] ms.spec_contains(k) ==> exists|i: int|
                0 <= i < plugins@.len() && (#[trigger] plugins@[i]).name@ == k) && (forall|i: int|
            0 <= i < plugins@.len() ==> inline_manifest_exact(
                (#[trigger] plugins@[i]).plugin,
                plugins@[i].file_records@,
                ms.spec_at(plugins@[i].name@),
            )),
        r matches Err(e) ==> e matches AclError::DuplicateIdentifier {
            namespace: ns,
            identifier: id,
        } && (exists|i: int| 0 <= i < plugins@.len() && (#[trigger] plugins@[i]).name@ == ns@),
{
    let ghost ps0 = plugins@;
    let mut plugins = plugins;
    let mut ms: OrdMap<Manifest> = OrdMap::new();
    let mut idx: usize = 0;
    let n = plugins.len();
    #[verifier::loop_isolation(false)]
    while idx < n
        invariant
            n == ps0.len(),
            0 <= idx <= n,
            plugins@ == ps0.subrange(idx as int, n as int),
            ms.wf(),
            forall|k: Seq<char>| #[trigger] ms.spec_contains(k) ==> ms.spec_at(k).wf(),
            forall|i: int| 0 <= i < idx ==> ms.spec_contains((#[trigger] ps0[i]).name@),
            forall|k: Seq<char>|
                #[trigger] ms.spec_contains(k) ==> exists|i: int|
                    0 <= i < idx && (#[trigger] ps0[i]).name@ == k,
            forall|i: int|
                0 <= i < idx ==> inline_manifest_exact(
                    (#[trigger] ps0[i]).plugin,
                    ps0[i].file_records@,
                    ms.spec_at(ps0[i].name@),
                ),
            forall|i: int|
                0 <= i < idx ==> inline_inputs_ok(
                    (#[trigger] ps0[i]).plugin,
                    ps0[i].file_records@,
                ),
            forall|i: int, j: int|
                0 <= i < j < idx ==> (#[trigger] ps0[i]).name@ != (#[trigger] ps0[j]).name@,
        decreases n - idx,
    {
        let p = plugins.remove(0);
        proof {
            assert(p == ps0[idx as int]);
            assert(plugins@ =~= ps0.subrange(idx + 1, n as int));
        }
        let ghost nsv = p.name@;
        let ghost gm_exact_plugin = p.plugin;
        let m = match inline_plugin_manifest(&p.name, p.plugin, p.file_records) {
            Ok(m) => m,
            Err(e) => {
                proof {
                    assert(!inline_inputs_ok(ps0[idx as int].plugin, ps0[idx as int].file_records@));
                }
                return Err(e);
            },
        };
        let err_ns = p.name.clone();
        let ghost prev = ms;
        if !ms.insert_or_fail(p.name, m) {
            proof {
                let w = choose|w: int| 0 <= w < idx && (#[trigger] ps0[w]).name@ == nsv;
                assert(ps0[w].name@ == ps0[idx as int].name@);
            }
            return Err(
                AclError::DuplicateIdentifier {
                    namespace: err_ns.clone(),
                    identifier: err_ns,
                },
            );
        }
        proof {
            assert forall|k: Seq<char>| #[trigger] ms.spec_contains(k) implies ms.spec_at(k).wf()
                by {
                if k != ps0[idx as int].name@ {
                    assert(prev.spec_contains(k));
                }
            }
            assert forall|k: Seq<char>| #[trigger] ms.spec_contains(k) implies exists|i: int|
                0 <= i < idx + 1 && (#[trigger] ps0[i]).name@ == k by {
                if k == nsv {
                    assert(ps0[idx as int].name@ == k);
                } else {
                    assert(prev.spec_contains(k));
                }
            }
            assert forall|i: int|
                0 <= i < idx + 1 implies inline_manifest_exact(
                (#[trigger] ps0[i]).plugin,
                ps0[i].file_records@,
                ms.spec_at(ps0[i].name@),
            ) by {
                if i < idx {
                    assert(prev.spec_contains(ps0[i].name@));
                    assert(ps0[i].name@ != nsv);
                    assert(ms.spec_at(ps0[i].name@) == prev.spec_at(ps0[i].name@));
                } else {
                    assert(ms.spec_at(nsv) == m);
                    assert(inline_manifest_exact(
                        ps0[idx as int].plugin,
                        ps0[idx as int].file_records@,
                        m,
                    ));
                }
            }
            assert forall|i: int, j: int| 0 <= i < j < idx + 1 implies (
            #[trigger] ps0[i]).name@ != (#[trigger] ps0[j]).name@ by {
                if j == idx as int && ps0[i].name@ == ps0[j].name@ {
                    assert(prev.spec_contains(ps0[i].name@));
                }
            }
        }
        idx = idx + 1;
    }
    proof {
        assert forall|i: int| 0 <= i < ms.spec_len() implies (#[trigger] ms.spec_vals()[i]).wf()
            by {
            ms.lemma_index_of(i);
            assert(ms.spec_contains(ms.pairs@[i].0@));
            assert(ms.spec_vals()[i] == ms.pairs@[i].1);
        }
    }
    Ok(ms)
}

/// When these hold, building an inlined plugin's manifest is owed to
/// succeed: commands are pairwise distinct, the plugin's own records do
/// not collide, no file record reuses a generated identifier, and a
/// supplied default rule is not doubled by a file default.
pub open spec fn inline_inputs_ok(plugin: InlinedPlugin, file_records: Seq<AclRecord>) -> bool {
    let cmds = plugin.commands.deep_view();
    &&& (forall|a: int, b: int| 0 <= a < b < cmds.len() ==> #[trigger] cmds[a] != #[trigger] cmds[b])
    &&& !has_collision(file_records)
    &&& (forall|j: int, c: int|
        0 <= j < file_records.len() && 0 <= c < cmds.len() ==> !(rec_is_perm(
            #[trigger] file_records[j],
            allow_id(#[trigger] cmds[c]),
        ) || rec_is_perm(file_records[j], deny_id(cmds[c]))))
    &&& (plugin.default is Some ==> (forall|j: int|
        0 <= j < file_records.len() ==> !((#[trigger] file_records[j]) is DefaultPerm)))
}

/// The manifest an inlined-plugin build produces, exactly: the generated
/// `allow-`/`deny-` permission of every command with its full content,
/// the file-parsed permissions and sets and nothing else, and the default
/// permission materialized from the rule (or taken from the file records
/// when no rule is given).
pub open spec fn inline_manifest_exact(
    plugin: InlinedPlugin,
    file_records: Seq<AclRecord>,
    m: Manifest,
) -> bool {
    let cmds = plugin.commands.deep_view();
    &&& m.wf()
    &&& m.global_scope_schema is None
    &&& (forall|c: int|
        0 <= c < cmds.len() ==> {
            let a = m.permissions.spec_at(allow_id(#[trigger] cmds[c]));
            &&& m.permissions.spec_contains(allow_id(cmds[c]))
            &&& a.identifier@ == allow_id(cmds[c])
            &&& a.description.deep_view() == Some(allow_description(cmds[c]))
            &&& a.commands_allow.deep_view() == seq![cmds[c]]
            &&& a.commands_deny@.len() == 0
            &&& a.scope is None
        })
    &&& (forall|c: int|
        0 <= c < cmds.len() ==> {
            let d = m.permissions.spec_at(deny_id(#[trigger] cmds[c]));
            &&& m.permissions.spec_contains(deny_id(cmds[c]))
            &&& d.identifier@ == deny_id(cmds[c])
            &&& d.description.deep_view() == Some(deny_description(cmds[c]))
            &&& d.commands_allow@.len() == 0
            &&& d.commands_deny.deep_view() == seq![cmds[c]]
            &&& d.scope is None
        })
    &&& (forall|j: int|
        0 <= j < file_records.len() ==> ((#[trigger] file_records[j]) matches AclRecord::Perm(p)
            ==> m.permissions.spec_contains(p.identifier@) && m.permissions.spec_at(p.identifier@)
            == p))
    &&& (forall|k: Seq<char>|
        #[trigger] m.permissions.spec_contains(k) ==> ((exists|c: int|
            0 <= c < cmds.len() && (k == allow_id(#[trigger] cmds[c]) || k == deny_id(cmds[c])))
            || (exists|j: int|
            0 <= j < file_records.len() && rec_is_perm(#[trigger] file_records[j], k))))
    &&& (forall|j: int|
        0 <= j < file_records.len() ==> ((#[trigger] file_records[j]) matches AclRecord::PermSet(
            s,
        ) ==> m.permission_sets.spec_contains(s.identifier@) && m.permission_sets.spec_at(
            s.identifier@,
        ) == s))
    &&& (forall|k: Seq<char>|
        #[trigger] m.permission_sets.spec_contains(k) ==> exists|j: int|
            0 <= j < file_records.len() && rec_is_set(#[trigger] file_records[j], k))
    &&& (plugin.default matches Some(rule) ==> m.default_permission matches Some(d) && {
        &&& d.description is None
        &&& (rule is AllowAllCommands ==> d.permissions.deep_view() == Seq::new(
            cmds.len(),
            |c: int| allow_id(cmds[c]),
        ))
        &&& (rule matches DefaultPermissionRule::Allow(list) ==> d.permissions == list)
    })
    &&& (plugin.default is None ==> {
        &&& (m.default_permission is Some <==> exists|j: int|
            0 <= j < file_records.len() && (#[trigger] file_records[j]) is DefaultPerm)
        &&& (forall|j: int|
            0 <= j < file_records.len() ==> ((#[trigger] file_records[j])
                matches AclRecord::DefaultPerm(d2) ==> m.default_permission == Some(d2)))
    })
}

/// Builds one inlined plugin's manifest: `allow-`/`deny-` permissions for
/// each command, the default rule materialized as a literal record, and
/// the plugin's own file-parsed records. Succeeds exactly when the inputs
/// are collision-free (`inline_inputs_ok`); a collision fails with
/// `DuplicateIdentifier` under the plugin's namespace.
#[verifier::rlimit(80)]
pub fn inline_plugin_manifest(name: &String, plugin: InlinedPlugin, file_records: Vec<AclRecord>)
    -> (r: Result<Manifest, AclError>)
    ensures
        r is Ok <==> inline_inputs_ok(plugin, file_records@),
        r matches Ok(m) ==> inline_manifest_exact(plugin, file_records@, m),
        r matches Err(e) ==> e matches AclError::DuplicateIdentifier { namespace: ns, identifier: id }
            && ns@ == name@,
{
    let auto = autogenerate_command_permissions(&plugin.commands);
    let ghost cmds = plugin.commands@;
    let ghost gauto = auto.permissions@;
    let ghost gallowed = auto.allowed@;
    let mut records: Vec<AclRecord> = Vec::new();
    let mut perms = auto.permissions;
    let pn = perms.len();
    let mut i: usize = 0;
    #[verifier::loop_isolation(false)]
    while i < pn
        invariant
            0 <= i <= pn,
            pn == 2 * cmds.len(),
            pn == gauto.len(),
            perms@ == gauto.subrange(i as int, pn as int),
            records@.len() == i,
            forall|k: int| 0 <= k < i ==> #[trigger] records@[k] == AclRecord::Perm(gauto[k]),
        decreases pn - i,
    {
        let perm = perms.remove(0);
        proof {
            assert(perm == gauto[i as int]);
            assert(perms@ =~= gauto.subrange(i + 1, pn as int));
        }
        records.push(AclRecord::Perm(perm));
        i = i + 1;
    }
    let ghost gen_part = records@;
    let default_rec: Option<DefaultPermission> = match plugin.default {
        Some(rule) => Some(materialize_default_rule(rule, auto.allowed)),
        None => None,
    };
    let ghost gdefault = default_rec;
    match default_rec {
        Some(d) => {
            records.push(AclRecord::DefaultPerm(d));
        },
        None => {},
    }
    let ghost base = records@;
    proof {
        assert(base.subrange(0, gen_part.len() as int) =~= gen_part);
        if plugin.default is Some {
            assert(gdefault is Some);
            assert(base.last() == AclRecord::DefaultPerm(gdefault->0));
        }
    }
    let mut files = file_records;
    let fln = files.len();
    let mut j: usize = 0;
    #[verifier::loop_isolation(false)]
    while j < fln
        invariant
            0 <= j <= fln,
            files@.len() == fln - j,
            records@.len() == base.len() + j,
            records@.subrange(0, base.len() as int) == base,
            forall|k: int| 0 <= k < fln - j ==> #[trigger] files@[k] == file_records@[j + k],
            forall|k: int|
                0 <= k < j ==> #[trigger] records@[base.len() + k] == file_records@[k],
        decreases fln - j,
    {
        let rec = files.remove(0);
        let ghost prev = records@;
        records.push(rec);
        proof {
            assert(records@.subrange(0, base.len() as int) =~= base);
        }
        j = j + 1;
    }
    let ghost all = records@;
    proof {
        if inline_inputs_ok(plugin, file_records@) {
            let cmds = plugin.commands.deep_view();
            let pn2 = 2 * cmds.len();
            let foff = base.len() as int;
            assert forall|x: int, y: int| 0 <= x < y < all.len() implies !records_collide(
                #[trigger] all[x],
                #[trigger] all[y],
            ) by {
                if records_collide(all[x], all[y]) {
                    if y < pn2 {
                        assert(all[x] == base[x] && all[y] == base[y]);
                        assert(base[x] == gen_part[x] && base[y] == gen_part[y]);
                        let ix = x / 2;
                        let iy = y / 2;
                        assert(all[x] matches AclRecord::Perm(p) && p.identifier@
                            == generated_ids(cmds)[x]);
                        assert(all[y] matches AclRecord::Perm(p) && p.identifier@
                            == generated_ids(cmds)[y]);
                        assert(generated_ids(cmds)[x] == generated_ids(cmds)[y]);
                        if x % 2 == 0 && y % 2 == 0 {
                            lemma_allow_id_injective(cmds[ix], cmds[iy]);
                            assert(cmds[ix] == cmds[iy]);
                        } else if x % 2 == 0 {
                            lemma_allow_deny_disjoint(cmds[ix], cmds[iy]);
                        } else if y % 2 == 0 {
                            lemma_allow_deny_disjoint(cmds[iy], cmds[ix]);
                        } else {
                            lemma_deny_id_injective(cmds[ix], cmds[iy]);
                            assert(cmds[ix] == cmds[iy]);
                        }
                    } else if y < foff {
                        assert(all[y] == base[y]);
                        assert(base[y] is DefaultPerm);
                        assert(all[x] == base[x] && base[x] == gen_part[x]);
                        assert((all[x]) is Perm);
                    } else {
                        let ky = y - foff;
                        assert(all[foff + ky] == file_records@[ky]);
                        assert(foff + ky == y);
                        assert(all[y] == file_records@[y - foff]);
                        if x < pn2 {
                            assert(all[x] == base[x] && base[x] == gen_part[x]);
                            assert(all[x] matches AclRecord::Perm(p) && p.identifier@
                                == generated_ids(cmds)[x]);
                            let ix = x / 2;
                            if x % 2 == 0 {
                                assert(rec_is_perm(file_records@[y - foff], allow_id(cmds[ix])));
                            } else {
                                assert(rec_is_perm(file_records@[y - foff], deny_id(cmds[ix])));
                            }
                        } else if x < foff {
                            assert(all[x] == base[x]);
                            assert(base[x] is DefaultPerm);
                            assert((file_records@[y - foff]) is DefaultPerm);
                            assert(plugin.default is Some);
                        } else {
                            let kx = x - foff;
                            assert(all[foff + kx] == file_records@[kx]);
                            assert(foff + kx == x);
                            assert(all[x] == file_records@[x - foff]);
                            assert(records_collide(
                                file_records@[x - foff],
                                file_records@[y - foff],
                            ));
                            assert(has_collision(file_records@));
                        }
                    }
                }
            }
            assert(!has_collision(all));
        }
    }
    let r = build_manifest(name.as_str(), records, None);
    match r {
        Ok(m) => {
            proof {
                let gcmds = plugin.commands.deep_view();
                let pn2 = 2 * gcmds.len();
                let foff = base.len() as int;
                crate::autogen::lemma_autogen_partition(gcmds);
                assert(all.subrange(0, base.len() as int) == base);
                assert forall|k: int| 0 <= k < pn2 implies #[trigger] all[k] == AclRecord::Perm(
                    gauto[k],
                ) by {
                    assert(base[k] == gen_part[k]);
                    assert(all[k] == base[k]);
                }
                // the generated permissions are present with their content
                assert forall|c: int| 0 <= c < gcmds.len() implies {
                    let a = m.permissions.spec_at(allow_id(#[trigger] gcmds[c]));
                    &&& m.permissions.spec_contains(allow_id(gcmds[c]))
                    &&& a.identifier@ == allow_id(gcmds[c])
                    &&& a.description.deep_view() == Some(allow_description(gcmds[c]))
                    &&& a.commands_allow.deep_view() == seq![gcmds[c]]
                    &&& a.commands_deny@.len() == 0
                    &&& a.scope is None
                } by {
                    assert(all[2 * c] == AclRecord::Perm(gauto[2 * c]));
                    assert(gcmds[c] == plugin.commands@[c]@);
                    assert(gauto[2 * c].identifier@ == allow_id(plugin.commands@[c]@));
                    assert(gauto[2 * c].description.deep_view() == Some(
                        allow_description(plugin.commands@[c]@),
                    ));
                    assert(gauto[2 * c].commands_allow.deep_view() == seq![plugin.commands@[c]@]);
                    assert(gauto[2 * c].commands_deny@.len() == 0);
                    assert(gauto[2 * c].scope is None);
                }
                assert forall|c: int| 0 <= c < gcmds.len() implies {
                    let d = m.permissions.spec_at(deny_id(#[trigger] gcmds[c]));
                    &&& m.permissions.spec_contains(deny_id(gcmds[c]))
                    &&& d.identifier@ == deny_id(gcmds[c])
                    &&& d.description.deep_view() == Some(deny_description(gcmds[c]))
                    &&& d.commands_allow@.len() == 0
                    &&& d.commands_deny.deep_view() == seq![gcmds[c]]
                    &&& d.scope is None
                } by {
                    assert(all[2 * c + 1] == AclRecord::Perm(gauto[2 * c + 1]));
                    assert(gcmds[c] == plugin.commands@[c]@);
                    assert(gauto[2 * c + 1].identifier@ == deny_id(plugin.commands@[c]@));
                    assert(gauto[2 * c + 1].description.deep_view() == Some(
                        deny_description(plugin.commands@[c]@),
                    ));
                    assert(gauto[2 * c + 1].commands_allow@.len() == 0);
                    assert(gauto[2 * c + 1].commands_deny.deep_view() == seq![
                        plugin.commands@[c]@,
                    ]);
                    assert(gauto[2 * c + 1].scope is None);
                }
                // file permissions and sets lift at their shifted indices
                assert forall|j: int| 0 <= j < file_records@.len() implies #[trigger] all[foff + j]
                    == file_records@[j] by {}
                // nothing else: every key traces to a generated id or a file record
                assert forall|k: Seq<char>| #[trigger] m.permissions.spec_contains(k) implies ((
                exists|c: int|
                    0 <= c < gcmds.len() && (k == allow_id(#[trigger] gcmds[c]) || k == deny_id(
                        gcmds[c],
                    ))) || (exists|j: int|
                    0 <= j < file_records@.len() && rec_is_perm(
                        #[trigger] file_records@[j],
                        k,
                    ))) by {
                    let w = choose|w: int| 0 <= w < all.len() && rec_is_perm(all[w], k);
                    if w < pn2 {
                        let c = w / 2;
                        assert(all[w] == AclRecord::Perm(gauto[w]));
                        assert(gauto[w].identifier@ == generated_ids(gcmds)[w]);
                        assert(k == allow_id(gcmds[c]) || k == deny_id(gcmds[c]));
                    } else if w < foff {
                        assert(all[w] == base[w]);
                        assert(base[w] is DefaultPerm);
                    } else {
                        let kw = w - foff;
                        assert(all[foff + kw] == file_records@[kw]);
                        assert(foff + kw == w);
                        assert(rec_is_perm(file_records@[w - foff], k));
                    }
                }
                assert forall|k: Seq<char>| #[trigger] m.permission_sets.spec_contains(k)
                    implies exists|j: int|
                    0 <= j < file_records@.len() && rec_is_set(#[trigger] file_records@[j], k) by {
                    let w = choose|w: int| 0 <= w < all.len() && rec_is_set(all[w], k);
                    if w < pn2 {
                        assert(all[w] == AclRecord::Perm(gauto[w]));
                    } else if w < foff {
                        assert(all[w] == base[w]);
                        assert(base[w] is DefaultPerm);
                    } else {
                        let kw = w - foff;
                        assert(all[foff + kw] == file_records@[kw]);
                        assert(foff + kw == w);
                        assert(rec_is_set(file_records@[w - foff], k));
                    }
                }
                // the default permission
                if plugin.default is Some {
                    let rule = plugin.default->0;
                    let d = gdefault->0;
                    assert(all[foff - 1] == base[foff - 1]);
                    assert(base[foff - 1] == AclRecord::DefaultPerm(d));
                    assert(m.default_permission == Some(d));
                    if rule is AllowAllCommands {
                        assert(d.permissions@ == gallowed);
                        assert forall|c: int| 0 <= c < gcmds.len()
                            implies #[trigger] d.permissions.deep_view()[c] == allow_id(
                            gcmds[c],
                        ) by {
                            assert(d.permissions.deep_view()[c] == d.permissions@[c]@);
                            assert(gallowed[c]@ == allow_id(plugin.commands@[c]@));
                            assert(gcmds[c] == plugin.commands@[c]@);
                        }
                        assert(d.permissions.deep_view() =~= Seq::new(
                            gcmds.len(),
                            |c: int| allow_id(gcmds[c]),
                        ));
                    }
                }
                if plugin.default is None {
                    assert(foff == pn2);
                    assert forall|j: int| 0 <= j < file_records@.len() implies ((
                    #[trigger] file_records@[j]) matches AclRecord::DefaultPerm(d2)
                        ==> m.default_permission == Some(d2)) by {
                        if file_records@[j] is DefaultPerm {
                            assert(all[foff + j] == file_records@[j]);
                        }
                    }
                    if m.default_permission is Some {
                        let w = choose|w: int| 0 <= w < all.len() && (#[trigger] all[w]) is DefaultPerm;
                        if w < pn2 {
                            assert(all[w] == AclRecord::Perm(gauto[w]));
                        } else {
                            let kw = w - foff;
                            assert(all[foff + kw] == file_records@[kw]);
                            assert(foff + kw == w);
                        }
                    }
                    if exists|j: int|
                        0 <= j < file_records@.len() && (#[trigger] file_records@[j])
                            is DefaultPerm {
                        let j = choose|j: int|
                            0 <= j < file_records@.len() && (#[trigger] file_records@[j])
                                is DefaultPerm;
                        assert(all[foff + j] == file_records@[j]);
                        assert((all[foff + j]) is DefaultPerm);
                    }
                }
                assert(m.wf());
                assert(m.global_scope_schema is None);
                assert forall|j: int| 0 <= j < file_records@.len() implies ((
                #[trigger] file_records@[j]) matches AclRecord::Perm(p)
                    ==> m.permissions.spec_contains(p.identifier@) && m.permissions.spec_at(
                    p.identifier@,
                ) == p) by {
                    assert(all[foff + j] == file_records@[j]);
                }
                assert forall|j: int| 0 <= j < file_records@.len() implies ((
                #[trigger] file_records@[j]) matches AclRecord::PermSet(s2)
                    ==> m.permission_sets.spec_contains(s2.identifier@)
                    && m.permission_sets.spec_at(s2.identifier@) == s2) by {
                    assert(all[foff + j] == file_records@[j]);
                }
                assert(plugin.default matches Some(rule2) ==> m.default_permission matches Some(
                    d3,
                ) && {
                    &&& d3.description is None
                    &&& (rule2 is AllowAllCommands ==> d3.permissions.deep_view() == Seq::new(
                        gcmds.len(),
                        |c: int| allow_id(gcmds[c]),
                    ))
                    &&& (rule2 matches DefaultPermissionRule::Allow(list) ==> d3.permissions
                        == list)
                });
                assert(plugin.default is None ==> (m.default_permission is Some <==> exists|j: int|
                    0 <= j < file_records@.len() && (#[trigger] file_records@[j]) is DefaultPerm));
                assert(inline_manifest_exact(plugin, file_records@, m));
                // success also settles the input conditions: no collision among
                // the assembled records rules out every way the inputs could clash
                assert forall|a: int, b: int| 0 <= a < b < gcmds.len() implies #[trigger] gcmds[a]
                    != #[trigger] gcmds[b] by {
                    if gcmds[a] == gcmds[b] {
                        assert(all[2 * a] == AclRecord::Perm(gauto[2 * a]));
                        assert(all[2 * b] == AclRecord::Perm(gauto[2 * b]));
                        assert(gauto[2 * a].identifier@ == allow_id(gcmds[a]));
                        assert(gauto[2 * b].identifier@ == allow_id(gcmds[b]));
                        assert(records_collide(all[2 * a], all[2 * b]));
                        assert(has_collision(all));
                    }
                }
                assert(!has_collision(file_records@)) by {
                    if has_collision(file_records@) {
                        let (x, y): (int, int) = choose|x: int, y: int|
                            0 <= x < y < file_records@.len() && records_collide(
                                #[trigger] file_records@[x],
                                #[trigger] file_records@[y],
                            );
                        assert(all[foff + x] == file_records@[x]);
                        assert(all[foff + y] == file_records@[y]);
                        assert(records_collide(all[foff + x], all[foff + y]));
                        assert(has_collision(all));
                    }
                }
                assert forall|j: int, c: int|
                    0 <= j < file_records@.len() && 0 <= c < gcmds.len() implies !(rec_is_perm(
                    #[trigger] file_records@[j],
                    allow_id(#[trigger] gcmds[c]),
                ) || rec_is_perm(file_records@[j], deny_id(gcmds[c]))) by {
                    if rec_is_perm(file_records@[j], allow_id(gcmds[c])) || rec_is_perm(
                        file_records@[j],
                        deny_id(gcmds[c]),
                    ) {
                        assert(all[foff + j] == file_records@[j]);
                        assert(all[2 * c] == AclRecord::Perm(gauto[2 * c]));
                        assert(all[2 * c + 1] == AclRecord::Perm(gauto[2 * c + 1]));
                        assert(gauto[2 * c].identifier@ == allow_id(gcmds[c]));
                        assert(gauto[2 * c + 1].identifier@ == deny_id(gcmds[c]));
                        if rec_is_perm(file_records@[j], allow_id(gcmds[c])) {
                            assert(records_collide(all[2 * c], all[foff + j]));
                        } else {
                            assert(records_collide(all[2 * c + 1], all[foff + j]));
                        }
                        assert(has_collision(all));
                    }
                }
                if plugin.default is Some {
                    assert forall|j: int| 0 <= j < file_records@.len() implies !((
                    #[trigger] file_records@[j]) is DefaultPerm) by {
                        if file_records@[j] is DefaultPerm {
                            assert(all[foff - 1] == base[foff - 1]);
                            assert((all[foff - 1]) is DefaultPerm);
                            assert(all[foff + j] == file_records@[j]);
                            assert(records_collide(all[foff - 1], all[foff + j]));
                            assert(has_collision(all));
                        }
                    }
                }
                assert(inline_inputs_ok(plugin, file_records@));
            }
            Ok(m)
        },
        Err(e) => Err(e),
    }
}

/// Builds the application's own manifest: autogenerated command
/// permissions plus its file-parsed records, under the application
/// namespace.
pub fn app_manifest_permissions(manifest: AppManifest, file_records: Vec<AclRecord>) -> (r: Result<
    Manifest,
    AclError,
>)
    ensures
        r is Ok <==> inline_inputs_ok(
            InlinedPlugin {
                commands: manifest.commands,
                permissions_path_pattern: manifest.permissions_path_pattern,
                default: None,
            },
            file_records@,
        ),
        r matches Ok(m) ==> inline_manifest_exact(
            InlinedPlugin {
                commands: manifest.commands,
                permissions_path_pattern: manifest.permissions_path_pattern,
                default: None,
            },
            file_records@,
            m,
        ),
        r matches Err(e) ==> e matches AclError::DuplicateIdentifier { namespace: ns, identifier: id }
            && ns@ == crate::APP_ACL_KEY@,
{
    let plugin = InlinedPlugin {
        commands: manifest.commands,
        permissions_path_pattern: manifest.permissions_path_pattern,
        default: None,
    };
    let ghost gplugin = plugin;
    let name: String = crate::APP_ACL_KEY.to_owned();
    let r = inline_plugin_manifest(&name, plugin, file_records);
    proof {
        assert(gplugin == InlinedPlugin {
            commands: manifest.commands,
            permissions_path_pattern: manifest.permissions_path_pattern,
            default: None,
        });
    }
    r
}

/// Runs the whole pipeline over already-parsed inputs: plugin manifests,
/// the application manifest (folded in only when it has content), inlined
/// plugins, then set-reference checking, capability validation, and the
/// persisted documents.
pub fn build(
    plugins: Vec<PluginRecords>,
    app_manifest: AppManifest,
    app_records: Vec<AclRecord>,
    inlined: Vec<InlinedPluginInput>,
    capabilities: &OrdMap<Capability>,
    target: crate::model::Platform,
) -> (r: Result<BuildOutput, AclError>)
    requires
        capabilities.wf(),
    ensures
        r matches Ok(out) ==> {
            &&& manifests_wf(out.manifests)
            &&& out.manifests_json@ == json_text(spec_acl_json(out.manifests))
            &&& out.capabilities_json@ == json_text(spec_capabilities_json(*capabilities))
            &&& out.schema_json@ == json_text(spec_schema(out.manifests))
            &&& (forall|c: int|
                0 <= c < capabilities.spec_len() ==> cap_ok(
                    out.manifests,
                    #[trigger] capabilities.spec_vals()[c],
                    target,
                ))
            &&& (forall|i: int|
                0 <= i < out.manifests.spec_len() ==> member_resolves_all(
                    #[trigger] out.manifests.spec_vals()[i],
                ))
        },
        r matches Err(e) ==> (e is DuplicateIdentifier || e is UnresolvedReference
            || e is InvalidCapabilityPermission),
        (plugins@.len() == 0 && app_manifest.commands@.len() == 0 && app_records@.len() == 0
            && inlined@.len() == 0 && capabilities.spec_len() == 0) ==> r is Ok,
{
    let ghost trivial = plugins@.len() == 0 && app_manifest.commands@.len() == 0
        && app_records@.len() == 0 && inlined@.len() == 0 && capabilities.spec_len() == 0;
    let mut ms = match get_manifests_from_plugins(plugins) {
        Ok(ms) => ms,
        Err(e) => {
            return Err(e);
        },
    };
    proof {
        assert(trivial ==> ms.spec_len() == 0) by {
            if trivial && ms.spec_len() > 0 {
                ms.lemma_index_of(0);
                assert(ms.spec_contains(ms.pairs@[0].0@));
            }
        }
    }
    proof {
        assert forall|k: Seq<char>| #[trigger] ms.spec_contains(k) implies ms.spec_at(k).wf() by {
            let w = ms.spec_index_of(k);
            assert(0 <= w < ms.pairs@.len() && ms.pairs@[w].0@ == k);
            assert(ms.spec_vals()[w].wf());
            assert(ms.spec_vals()[w] == ms.pairs@[w].1);
        }
    }
    let app_m = match app_manifest_permissions(app_manifest, app_records) {
        Ok(m) => m,
        Err(e) => {
            return Err(e);
        },
    };
    proof {
        assert(trivial ==> app_m.permissions.spec_len() == 0 && app_m.permission_sets.spec_len()
            == 0 && app_m.default_permission is None) by {
            if trivial {
                if app_m.permissions.spec_len() > 0 {
                    app_m.permissions.lemma_index_of(0);
                    assert(app_m.permissions.spec_contains(app_m.permissions.pairs@[0].0@));
                }
                if app_m.permission_sets.spec_len() > 0 {
                    app_m.permission_sets.lemma_index_of(0);
                    assert(app_m.permission_sets.spec_contains(
                        app_m.permission_sets.pairs@[0].0@,
                    ));
                }
            }
        }
    }
    let app_has_content = app_m.default_permission.is_some() || app_m.permission_sets.len() > 0
        || app_m.permissions.len() > 0;
    proof {
        assert(trivial ==> !app_has_content);
    }
    let ghost before_app = ms;
    if app_has_content {
        let key: String = crate::APP_ACL_KEY.to_owned();
        let err_key = key.clone();
        let ghost kv = key@;
        let ghost app_m0 = app_m;
        if !ms.insert_or_fail(key, app_m) {
            return Err(
                AclError::DuplicateIdentifier { namespace: err_key.clone(), identifier: err_key },
            );
        }
        proof {
            assert forall|k: Seq<char>| #[trigger] ms.spec_contains(k) implies ms.spec_at(k).wf()
                by {
                if k != kv {
                    assert(before_app.spec_contains(k));
                } else {
                    assert(ms.spec_at(kv) == app_m0);
                }
            }
        }
    }
    proof {
        assert(trivial ==> ms.spec_len() == 0);
    }
    let inlined_ms = match inline_plugins(inlined) {
        Ok(m) => m,
        Err(e) => {
            return Err(e);
        },
    };
    proof {
        assert forall|i: int| 0 <= i < inlined_ms.spec_len() implies (
        #[trigger] inlined_ms.pairs@[i].1).wf() by {
            inlined_ms.lemma_index_of(i);
            assert(inlined_ms.spec_vals()[i].wf());
            assert(inlined_ms.spec_vals()[i] == inlined_ms.pairs@[i].1);
        }
        assert(trivial ==> inlined_ms.spec_len() == 0) by {
            if trivial && inlined_ms.spec_len() > 0 {
                inlined_ms.lemma_index_of(0);
                assert(inlined_ms.spec_contains(inlined_ms.pairs@[0].0@));
            }
        }
    }
    let ghost ip0 = inlined_ms.pairs@;
    let mut ipairs = inlined_ms.pairs;
    let inn = ipairs.len();
    let mut ii: usize = 0;
    #[verifier::loop_isolation(false)]
    while ii < inn
        invariant
            0 <= ii <= inn,
            inn == ip0.len(),
            ipairs@ == ip0.subrange(ii as int, inn as int),
            ms.wf(),
            forall|k: Seq<char>| #[trigger] ms.spec_contains(k) ==> ms.spec_at(k).wf(),
            trivial ==> ms.spec_len() == 0,
        decreases inn - ii,
    {
        let pair = ipairs.remove(0);
        proof {
            assert(pair == ip0[ii as int]);
            assert(ipairs@ =~= ip0.subrange(ii + 1, inn as int));
            assert(pair.1.wf());
        }
        let key = pair.0;
        let err_key = key.clone();
        let ghost prev = ms;
        let ghost kv = key@;
        if !ms.insert_or_fail(key, pair.1) {
            return Err(
                AclError::DuplicateIdentifier { namespace: err_key.clone(), identifier: err_key },
            );
        }
        proof {
            assert forall|k: Seq<char>| #[trigger] ms.spec_contains(k) implies ms.spec_at(k).wf()
                by {
                if k != kv {
                    assert(prev.spec_contains(k));
                }
            }
        }
        ii = ii + 1;
    }
    proof {
        assert forall|i: int| 0 <= i < ms.spec_len() implies (#[trigger] ms.spec_vals()[i]).wf()
            by {
            ms.lemma_index_of(i);
            assert(ms.spec_contains(ms.pairs@[i].0@));
        }
    }
    let mn = ms.len();
    let mut mi: usize = 0;
    #[verifier::loop_isolation(false)]
    while mi < mn
        invariant
            0 <= mi <= mn,
            mn == ms.spec_len(),
            manifests_wf(ms),
            forall|i: int|
                0 <= i < mi ==> member_resolves_all(#[trigger] ms.spec_vals()[i]),
        decreases mn - mi,
    {
        let key = ms.key_at(mi);
        let m = ms.val_at(mi);
        proof {
            assert(m.wf());
        }
        match check_set_references(key.as_str(), m) {
            Ok(_) => {},
            Err(e) => {
                return Err(e);
            },
        }
        mi = mi + 1;
    }
    match validate_capabilities(&ms, capabilities, target) {
        Ok(_) => {},
        Err(e) => {
            return Err(e);
        },
    }
    let manifests_json = save_acl_manifests(&ms);
    let capabilities_json = save_capabilities(capabilities);
    let schema_json = generate_schema(&ms);
    Ok(BuildOutput { manifests: ms, manifests_json, capabilities_json, schema_json })
}

} // verus!
