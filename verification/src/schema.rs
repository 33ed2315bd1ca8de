//! Synthesizes the capability schema: one closed enumeration of every
//! legal identifier across every manifest, and, for namespaces that
//! declare a global scope shape, a discriminated union for the extended
//! permission entry. The synthesis is a function of the manifest table
//! alone, so repeated runs over the same table give byte-identical output.

use vstd::prelude::*;
use vstd::string::StringExecFns;

use crate::ident::{canonical_id, make_canonical};
use crate::json::{
    encode, jarr, jarr1, jobj, jobj1, jobj2, jobj3, json_clone, json_text, json_view,
    json_view_members, json_view_seq, jstr, lemma_view_members_concat, lemma_view_seq_concat,
    lemma_view_seq_push, JsonValue, SpecJson,
};
use crate::model::Manifest;
use crate::ordmap::{lemma_sorted_unique_canonical, OrdMap};
use crate::validate::manifests_wf;

verus! {

broadcast use vstd::std_specs::vec::group_vec_axioms;

/// One enumeration branch: a string schema whose only legal value is the
/// canonical identifier, with the composed label as documentation.
pub open spec fn spec_branch(key: Seq<char>, id: Seq<char>, desc: Option<Seq<char>>) -> SpecJson {
    let name = canonical_id(key, id);
    match desc {
        Some(d) => SpecJson::Obj(
            seq![
                ("description"@, SpecJson::Str(name + " -> "@ + d)),
                ("type"@, SpecJson::Str("string"@)),
                ("enum"@, SpecJson::Arr(seq![SpecJson::Str(name)])),
            ],
        ),
        None => SpecJson::Obj(
            seq![
                ("type"@, SpecJson::Str("string"@)),
                ("enum"@, SpecJson::Arr(seq![SpecJson::Str(name)])),
            ],
        ),
    }
}

/// The description attached to a namespace's `default` branch.
pub open spec fn spec_default_desc(m: Manifest) -> Option<Seq<char>> {
    match m.default_permission {
        Some(d) => d.description.deep_view(),
        None => None,
    }
}

/// The identifier branches one namespace contributes to the global
/// enumeration: its sets, its `default`, then its permissions.
pub open spec fn spec_ns_branches(m: Manifest, key: Seq<char>) -> Seq<SpecJson> {
    Seq::new(
        m.permission_sets.spec_len(),
        |j: int|
            spec_branch(
                key,
                m.permission_sets.spec_keys()[j],
                Some(m.permission_sets.spec_vals()[j].description@),
            ),
    ) + seq![spec_branch(key, "default"@, spec_default_desc(m))] + Seq::new(
        m.permissions.spec_len(),
        |j: int|
            spec_branch(
                key,
                m.permissions.spec_keys()[j],
                m.permissions.spec_vals()[j].description.deep_view(),
            ),
    )
}

/// The identifier branches scoped to one namespace, for its extended
/// permission entry: `default`, its sets, then its permissions.
pub open spec fn spec_scoped_branches(m: Manifest, key: Seq<char>) -> Seq<SpecJson> {
    seq![spec_branch(key, "default"@, spec_default_desc(m))] + Seq::new(
        m.permission_sets.spec_len(),
        |j: int|
            spec_branch(
                key,
                m.permission_sets.spec_keys()[j],
                Some(m.permission_sets.spec_vals()[j].description@),
            ),
    ) + Seq::new(
        m.permissions.spec_len(),
        |j: int|
            spec_branch(
                key,
                m.permissions.spec_keys()[j],
                m.permissions.spec_vals()[j].description.deep_view(),
            ),
    )
}

pub open spec fn spec_all_branches_prefix(ms: OrdMap<Manifest>, n: int) -> Seq<SpecJson>
    decreases n,
{
    if n <= 0 {
        Seq::empty()
    } else {
        spec_all_branches_prefix(ms, n - 1) + spec_ns_branches(
            ms.spec_vals()[n - 1],
            ms.spec_keys()[n - 1],
        )
    }
}

/// The members of a scope-schema object without its `definitions` table.
pub open spec fn members_wo_defs(ms: Seq<(Seq<char>, SpecJson)>) -> Seq<(Seq<char>, SpecJson)>
    decreases ms,
{
    if ms.len() == 0 {
        Seq::empty()
    } else {
        members_wo_defs(ms.drop_last()) + (if ms.last().0 == "definitions"@ {
            Seq::<(Seq<char>, SpecJson)>::empty()
        } else {
            seq![ms.last()]
        })
    }
}

/// The entries a scope-schema object's `definitions` table holds.
pub open spec fn defs_of(ms: Seq<(Seq<char>, SpecJson)>) -> Seq<(Seq<char>, SpecJson)>
    decreases ms,
{
    if ms.len() == 0 {
        Seq::empty()
    } else {
        defs_of(ms.drop_last()) + (if ms.last().0 == "definitions"@ {
            match ms.last().1 {
                SpecJson::Obj(d) => d,
                _ => Seq::<(Seq<char>, SpecJson)>::empty(),
            }
        } else {
            Seq::<(Seq<char>, SpecJson)>::empty()
        })
    }
}

/// A namespace's scope schema with its `definitions` table removed: what
/// remains describes one scope item.
pub open spec fn spec_scope_main(v: SpecJson) -> SpecJson {
    match v {
        SpecJson::Obj(ms) => SpecJson::Obj(members_wo_defs(ms)),
        _ => v,
    }
}

/// The definitions a namespace's scope schema hoists into the top-level
/// definition table, so its references resolve.
pub open spec fn spec_scope_defs(v: SpecJson) -> Seq<(Seq<char>, SpecJson)> {
    match v {
        SpecJson::Obj(ms) => defs_of(ms),
        _ => Seq::empty(),
    }
}

/// The extended-entry alternative for one namespace that declares a scope
/// schema: an object requiring `identifier` (constrained to the
/// namespace's own enumeration) with `allow` / `deny` as arrays of the
/// namespace's scope item.
pub open spec fn spec_ext_branch(m: Manifest, key: Seq<char>, scope: SpecJson) -> SpecJson {
    SpecJson::Obj(
        seq![
            ("type"@, SpecJson::Str("object"@)),
            ("required"@, SpecJson::Arr(seq![SpecJson::Str("identifier"@)])),
            (
                "properties"@,
                SpecJson::Obj(
                    seq![
                        (
                            "identifier"@,
                            SpecJson::Obj(
                                seq![("oneOf"@, SpecJson::Arr(spec_scoped_branches(m, key)))],
                            ),
                        ),
                        (
                            "allow"@,
                            SpecJson::Obj(
                                seq![
                                    ("type"@, SpecJson::Str("array"@)),
                                    ("items"@, spec_scope_main(scope)),
                                ],
                            ),
                        ),
                        (
                            "deny"@,
                            SpecJson::Obj(
                                seq![
                                    ("type"@, SpecJson::Str("array"@)),
                                    ("items"@, spec_scope_main(scope)),
                                ],
                            ),
                        ),
                    ],
                ),
            ),
        ],
    )
}

pub open spec fn spec_ext_branches_prefix(ms: OrdMap<Manifest>, n: int) -> Seq<SpecJson>
    decreases n,
{
    if n <= 0 {
        Seq::empty()
    } else {
        spec_ext_branches_prefix(ms, n - 1) + (match ms.spec_vals()[n - 1].global_scope_schema {
            Some(v) => seq![
                spec_ext_branch(ms.spec_vals()[n - 1], ms.spec_keys()[n - 1], json_view(v)),
            ],
            None => Seq::<SpecJson>::empty(),
        })
    }
}

pub open spec fn spec_hoisted_prefix(ms: OrdMap<Manifest>, n: int) -> Seq<(Seq<char>, SpecJson)>
    decreases n,
{
    if n <= 0 {
        Seq::empty()
    } else {
        spec_hoisted_prefix(ms, n - 1) + (match ms.spec_vals()[n - 1].global_scope_schema {
            Some(v) => spec_scope_defs(json_view(v)),
            None => Seq::<(Seq<char>, SpecJson)>::empty(),
        })
    }
}

/// The generic extended-entry alternative, used when no namespace declares
/// a scope shape: an object requiring `identifier` with any scope values.
pub open spec fn spec_generic_ext() -> SpecJson {
    SpecJson::Obj(
        seq![
            ("type"@, SpecJson::Str("object"@)),
            ("required"@, SpecJson::Arr(seq![SpecJson::Str("identifier"@)])),
            (
                "properties"@,
                SpecJson::Obj(
                    seq![
                        (
                            "identifier"@,
                            SpecJson::Obj(
                                seq![("$ref"@, SpecJson::Str("#/definitions/Identifier"@))],
                            ),
                        ),
                        ("allow"@, SpecJson::Obj(Seq::empty())),
                        ("deny"@, SpecJson::Obj(Seq::empty())),
                    ],
                ),
            ),
        ],
    )
}

/// The whole schema document for a manifest table.
pub open spec fn spec_schema(ms: OrdMap<Manifest>) -> SpecJson {
    let n = ms.spec_len() as int;
    let identifier_def = SpecJson::Obj(
        seq![
            ("description"@, SpecJson::Str("Permission identifier"@)),
            ("oneOf"@, SpecJson::Arr(spec_all_branches_prefix(ms, n))),
        ],
    );
    let ext = spec_ext_branches_prefix(ms, n);
    let extended: SpecJson = if ext.len() == 0 {
        spec_generic_ext()
    } else {
        SpecJson::Obj(seq![("oneOf"@, SpecJson::Arr(ext))])
    };
    let entry_def = SpecJson::Obj(
        seq![
            (
                "anyOf"@,
                SpecJson::Arr(
                    seq![
                        SpecJson::Obj(seq![("$ref"@, SpecJson::Str("#/definitions/Identifier"@))]),
                        extended,
                    ],
                ),
            ),
        ],
    );
    SpecJson::Obj(
        seq![
            ("$schema"@, SpecJson::Str("http://json-schema.org/draft-07/schema#"@)),
            ("title"@, SpecJson::Str("CapabilityFile"@)),
            (
                "definitions"@,
                SpecJson::Obj(
                    seq![("Identifier"@, identifier_def), ("PermissionEntry"@, entry_def)]
                        + spec_hoisted_prefix(ms, n),
                ),
            ),
        ],
    )
}

/// Splits a namespace's scope schema into the scope-item schema (its
/// members without `definitions`) and the definitions to hoist.
fn split_scope(v: &JsonValue) -> (r: (JsonValue, Vec<(String, JsonValue)>))
    ensures
        r.0@ == spec_scope_main(v@),
        json_view_members(r.1@) == spec_scope_defs(v@),
{
    match v {
        JsonValue::Obj(members) => {
            let mut main: Vec<(String, JsonValue)> = Vec::new();
            let mut defs: Vec<(String, JsonValue)> = Vec::new();
            let n = members.len();
            let mut i: usize = 0;
            proof {
                assert(json_view_members(members@.subrange(0, 0)) =~= Seq::<(
                    Seq<char>,
                    SpecJson,
                )>::empty());
                assert(members_wo_defs(Seq::<(Seq<char>, SpecJson)>::empty()) =~= Seq::<(
                    Seq<char>,
                    SpecJson,
                )>::empty());
                assert(defs_of(Seq::<(Seq<char>, SpecJson)>::empty()) =~= Seq::<(
                    Seq<char>,
                    SpecJson,
                )>::empty());
                assert(json_view_members(main@) =~= members_wo_defs(
                    json_view_members(members@.subrange(0, 0)),
                ));
                assert(json_view_members(defs@) =~= defs_of(
                    json_view_members(members@.subrange(0, 0)),
                ));
            }
            while i < n
                invariant
                    *v == JsonValue::Obj(*members),
                    n == members@.len(),
                    0 <= i <= n,
                    json_view_members(main@) == members_wo_defs(
                        json_view_members(members@.subrange(0, i as int)),
                    ),
                    json_view_members(defs@) == defs_of(
                        json_view_members(members@.subrange(0, i as int)),
                    ),
                decreases n - i,
            {
                let ghost seen = json_view_members(members@.subrange(0, i as int));
                let ghost mem = (members@[i as int].0@, json_view(members@[i as int].1));
                proof {
                    assert(members@.subrange(0, i + 1).drop_last() =~= members@.subrange(
                        0,
                        i as int,
                    ));
                    assert(json_view_members(members@.subrange(0, i + 1)) =~= seen.push(mem));
                    assert(seen.push(mem).drop_last() =~= seen);
                }
                if crate::ident::str_eq(members[i].0.as_str(), "definitions") {
                    match &members[i].1 {
                        JsonValue::Obj(inner) => {
                            let ghost prev_defs = defs@;
                            let m = inner.len();
                            let mut j: usize = 0;
                            proof {
                                assert(inner@.subrange(0, 0) =~= Seq::<(
                                    String,
                                    JsonValue,
                                )>::empty());
                                assert(json_view_members(inner@.subrange(0, 0)) =~= Seq::<(
                                    Seq<char>,
                                    SpecJson,
                                )>::empty());
                            }
                            while j < m
                                invariant
                                    *v == JsonValue::Obj(*members),
                                    0 <= i < n,
                                    n == members@.len(),
                                    members@[i as int].1 == JsonValue::Obj(*inner),
                                    m == inner@.len(),
                                    0 <= j <= m,
                                    json_view_members(defs@) == json_view_members(prev_defs)
                                        + json_view_members(inner@.subrange(0, j as int)),
                                decreases m - j,
                            {
                                proof {
                                    assert(decreases_to!(*v => v->Obj_0));
                                }
                                let key = inner[j].0.clone();
                                let val = json_clone(&inner[j].1);
                                let ghost prev = defs@;
                                defs.push((key, val));
                                proof {
                                    assert(defs@.drop_last() =~= prev);
                                    assert(json_view_members(defs@) =~= json_view_members(
                                        prev,
                                    ).push((inner@[j as int].0@, json_view(inner@[j as int].1))));
                                    assert(inner@.subrange(0, j + 1).drop_last()
                                        =~= inner@.subrange(0, j as int));
                                    assert(json_view_members(inner@.subrange(0, j + 1))
                                        =~= json_view_members(inner@.subrange(0, j as int)).push(
                                        (inner@[j as int].0@, json_view(inner@[j as int].1)),
                                    ));
                                    assert(json_view_members(defs@) =~= json_view_members(
                                        prev_defs,
                                    ) + json_view_members(inner@.subrange(0, j + 1)));
                                }
                                j = j + 1;
                            }
                            proof {
                                assert(inner@.subrange(0, m as int) =~= inner@);
                                assert(mem.1 == SpecJson::Obj(json_view_members(inner@)));
                                assert(json_view_members(defs@) =~= defs_of(seen.push(mem)));
                                assert(json_view_members(main@) =~= members_wo_defs(
                                    seen.push(mem),
                                ));
                            }
                        },
                        _ => {
                            proof {
                                assert(!(mem.1 is Obj));
                                assert(json_view_members(defs@) =~= defs_of(seen.push(mem)));
                                assert(json_view_members(main@) =~= members_wo_defs(
                                    seen.push(mem),
                                ));
                            }
                        },
                    }
                } else {
                    let key = members[i].0.clone();
                    let val = json_clone(&members[i].1);
                    let ghost prev = main@;
                    main.push((key, val));
                    proof {
                        assert(main@.drop_last() =~= prev);
                        assert(json_view_members(main@) =~= json_view_members(prev).push(mem));
                        assert(json_view_members(main@) =~= members_wo_defs(seen.push(mem)));
                        assert(json_view_members(defs@) =~= defs_of(seen.push(mem)));
                    }
                }
                i = i + 1;
            }
            proof {
                assert(members@.subrange(0, n as int) =~= members@);
            }
            (JsonValue::Obj(main), defs)
        },
        _ => {
            let c = json_clone(v);
            let defs: Vec<(String, JsonValue)> = Vec::new();
            proof {
                assert(json_view_members(defs@) =~= Seq::<(Seq<char>, SpecJson)>::empty());
            }
            (c, defs)
        },
    }
}

fn jarr2(v1: JsonValue, v2: JsonValue) -> (r: JsonValue)
    ensures
        r@ == SpecJson::Arr(seq![v1@, v2@]),
{
    let ghost g1 = v1@;
    let ghost g2 = v2@;
    let mut items: Vec<JsonValue> = Vec::new();
    items.push(v1);
    items.push(v2);
    proof {
        assert(items@.drop_last() =~= seq![items@[0]]);
        assert(seq![items@[0]].drop_last() =~= Seq::<JsonValue>::empty());
        assert(json_view_seq(seq![items@[0]].drop_last()) =~= Seq::<SpecJson>::empty());
        assert(json_view_seq(seq![items@[0]]) =~= seq![g1]);
        assert(json_view_seq(items@) =~= seq![g1, g2]);
    }
    JsonValue::Arr(items)
}

fn generic_ext() -> (r: JsonValue)
    ensures
        r@ == spec_generic_ext(),
{
    let empty_allow = jobj(Vec::new());
    let empty_deny = jobj(Vec::new());
    proof {
        assert(json_view_members(Seq::<(String, JsonValue)>::empty()) =~= Seq::<(
            Seq<char>,
            SpecJson,
        )>::empty());
    }
    let props = jobj3(
        "identifier",
        jobj1("$ref", jstr("#/definitions/Identifier")),
        "allow",
        empty_allow,
        "deny",
        empty_deny,
    );
    let r = jobj3(
        "type",
        jstr("object"),
        "required",
        jarr1(jstr("identifier")),
        "properties",
        props,
    );
    proof {
        assert(r@ =~= spec_generic_ext());
    }
    r
}

/// One enumeration branch as a document node.
fn branch(key: &str, id: &str, desc: Option<&String>) -> (r: JsonValue)
    ensures
        r@ == spec_branch(
            key@,
            id@,
            match desc {
                Some(d) => Some(d@),
                None => None,
            },
        ),
{
    let name = make_canonical(key, id);
    let ghost nview = name@;
    match desc {
        Some(d) => {
            let mut label = name.clone();
            label.append(" -> ");
            label.append(d.as_str());
            proof {
                assert(label@ =~= nview + " -> "@ + d@);
            }
            let enum_arr = jarr1(JsonValue::Str(name));
            let r = jobj3(
                "description",
                JsonValue::Str(label),
                "type",
                jstr("string"),
                "enum",
                enum_arr,
            );
            proof {
                assert(r@ =~= spec_branch(key@, id@, Some(d@)));
            }
            r
        },
        None => {
            let enum_arr = jarr1(JsonValue::Str(name));
            let r = jobj2("type", jstr("string"), "enum", enum_arr);
            proof {
                assert(r@ =~= spec_branch(key@, id@, None::<Seq<char>>));
            }
            r
        },
    }
}

/// The default branch's description, as the validator error and the
/// schema label show it.
fn default_desc_ref(m: &Manifest) -> (r: Option<&String>)
    ensures
        (match r {
            Some(d) => Some(d@),
            None => None,
        }) == spec_default_desc(*m),
{
    match &m.default_permission {
        Some(d) => match &d.description {
            Some(x) => Some(x),
            None => None,
        },
        None => None,
    }
}

/// The identifier branches of one namespace, in the given order: when
/// `default_first` is set, `default`, sets, permissions (the scoped
/// enumeration); otherwise sets, `default`, permissions (the global one).
fn ns_branches(m: &Manifest, key: &str, default_first: bool) -> (r: Vec<JsonValue>)
    requires
        m.wf(),
    ensures
        default_first ==> json_view_seq(r@) == spec_scoped_branches(*m, key@),
        !default_first ==> json_view_seq(r@) == spec_ns_branches(*m, key@),
{
    let mut out: Vec<JsonValue> = Vec::new();
    let ghost sets_part = Seq::new(
        m.permission_sets.spec_len(),
        |j: int|
            spec_branch(
                key@,
                m.permission_sets.spec_keys()[j],
                Some(m.permission_sets.spec_vals()[j].description@),
            ),
    );
    let ghost perms_part = Seq::new(
        m.permissions.spec_len(),
        |j: int|
            spec_branch(
                key@,
                m.permissions.spec_keys()[j],
                m.permissions.spec_vals()[j].description.deep_view(),
            ),
    );
    proof {
        assert(json_view_seq(out@) =~= Seq::<SpecJson>::empty());
    }
    if default_first {
        let ghost prev = out@;
        out.push(branch(key, "default", default_desc_ref(m)));
        proof {
            reveal_strlit("default");
            lemma_view_seq_push(prev, out@);
            assert(json_view_seq(out@) =~= seq![
                spec_branch(key@, "default"@, spec_default_desc(*m)),
            ]);
        }
    }
    let ghost base0 = json_view_seq(out@);
    let sn = m.permission_sets.len();
    let mut j: usize = 0;
    while j < sn
        invariant
            m.wf(),
            sn == m.permission_sets.spec_len(),
            0 <= j <= sn,
            sets_part == Seq::new(
                m.permission_sets.spec_len(),
                |j2: int|
                    spec_branch(
                        key@,
                        m.permission_sets.spec_keys()[j2],
                        Some(m.permission_sets.spec_vals()[j2].description@),
                    ),
            ),
            json_view_seq(out@) == base0 + sets_part.take(j as int),
        decreases sn - j,
    {
        let set = m.permission_sets.val_at(j);
        let ghost prev = out@;
        out.push(branch(key, set.identifier.as_str(), Some(&set.description)));
        proof {
            lemma_view_seq_push(prev, out@);
            m.permission_sets.lemma_index_of(j as int);
            assert(set.identifier@ == m.permission_sets.spec_keys()[j as int]);
            assert(sets_part.take(j + 1) =~= sets_part.take(j as int).push(
                sets_part[j as int],
            ));
            assert(json_view_seq(out@) =~= base0 + sets_part.take(j + 1));
        }
        j = j + 1;
    }
    proof {
        assert(sets_part.take(sn as int) =~= sets_part);
    }
    if !default_first {
        let ghost prev = out@;
        out.push(branch(key, "default", default_desc_ref(m)));
        proof {
            reveal_strlit("default");
            lemma_view_seq_push(prev, out@);
            assert(json_view_seq(out@) =~= base0 + sets_part + seq![
                spec_branch(key@, "default"@, spec_default_desc(*m)),
            ]);
        }
    }
    let ghost base1 = json_view_seq(out@);
    let pn = m.permissions.len();
    let mut j2: usize = 0;
    while j2 < pn
        invariant
            m.wf(),
            pn == m.permissions.spec_len(),
            0 <= j2 <= pn,
            perms_part == Seq::new(
                m.permissions.spec_len(),
                |j3: int|
                    spec_branch(
                        key@,
                        m.permissions.spec_keys()[j3],
                        m.permissions.spec_vals()[j3].description.deep_view(),
                    ),
            ),
            json_view_seq(out@) == base1 + perms_part.take(j2 as int),
        decreases pn - j2,
    {
        let perm = m.permissions.val_at(j2);
        let dref = perm.description.as_ref();
        let ghost prev = out@;
        out.push(branch(key, perm.identifier.as_str(), dref));
        proof {
            lemma_view_seq_push(prev, out@);
            m.permissions.lemma_index_of(j2 as int);
            assert(perm.identifier@ == m.permissions.spec_keys()[j2 as int]);
            assert((match dref {
                Some(d) => Some(d@),
                None => None::<Seq<char>>,
            }) == perm.description.deep_view());
            assert(perms_part.take(j2 + 1) =~= perms_part.take(j2 as int).push(
                perms_part[j2 as int],
            ));
            assert(json_view_seq(out@) =~= base1 + perms_part.take(j2 + 1));
        }
        j2 = j2 + 1;
    }
    proof {
        assert(perms_part.take(pn as int) =~= perms_part);
        if default_first {
            assert(json_view_seq(out@) =~= spec_scoped_branches(*m, key@));
        } else {
            assert(json_view_seq(out@) =~= spec_ns_branches(*m, key@));
        }
    }
    out
}

/// Synthesizes the whole capability schema document for the manifest
/// table.
pub fn capabilities_schema(manifests: &OrdMap<Manifest>) -> (r: JsonValue)
    requires
        manifests_wf(*manifests),
    ensures
        r@ == spec_schema(*manifests),
{
    let n = manifests.len();
    let mut branches: Vec<JsonValue> = Vec::new();
    let mut i: usize = 0;
    proof {
        assert(json_view_seq(branches@) =~= spec_all_branches_prefix(*manifests, 0));
    }
    while i < n
        invariant
            manifests_wf(*manifests),
            n == manifests.spec_len(),
            0 <= i <= n,
            json_view_seq(branches@) == spec_all_branches_prefix(*manifests, i as int),
        decreases n - i,
    {
        let key = manifests.key_at(i);
        let m = manifests.val_at(i);
        proof {
            assert(m.wf());
        }
        let mut ns = ns_branches(m, key.as_str(), false);
        let ghost prev = branches@;
        let ghost ns0 = ns@;
        let ghost nsview = json_view_seq(ns@);
        branches.append(&mut ns);
        proof {
            lemma_view_seq_concat(prev, ns0);
            assert(branches@ == prev + ns0);
            assert(json_view_seq(branches@) =~= spec_all_branches_prefix(*manifests, i + 1));
        }
        i = i + 1;
    }
    let mut ext: Vec<JsonValue> = Vec::new();
    let mut hoisted: Vec<(String, JsonValue)> = Vec::new();
    let mut i2: usize = 0;
    proof {
        assert(json_view_seq(ext@) =~= spec_ext_branches_prefix(*manifests, 0));
        assert(json_view_members(hoisted@) =~= spec_hoisted_prefix(*manifests, 0));
    }
    while i2 < n
        invariant
            manifests_wf(*manifests),
            n == manifests.spec_len(),
            0 <= i2 <= n,
            json_view_seq(ext@) == spec_ext_branches_prefix(*manifests, i2 as int),
            json_view_members(hoisted@) == spec_hoisted_prefix(*manifests, i2 as int),
        decreases n - i2,
    {
        let key = manifests.key_at(i2);
        let m = manifests.val_at(i2);
        proof {
            assert(m.wf());
        }
        match &m.global_scope_schema {
            Some(scope) => {
                let (main, mut defs) = split_scope(scope);
                let main2 = json_clone(&main);
                let scoped = ns_branches(m, key.as_str(), true);
                let ghost scopedview = json_view_seq(scoped@);
                let props = jobj3(
                    "identifier",
                    jobj1("oneOf", jarr(scoped)),
                    "allow",
                    jobj2("type", jstr("array"), "items", main),
                    "deny",
                    jobj2("type", jstr("array"), "items", main2),
                );
                let b = jobj3(
                    "type",
                    jstr("object"),
                    "required",
                    jarr1(jstr("identifier")),
                    "properties",
                    props,
                );
                proof {
                    assert(b@ =~= spec_ext_branch(
                        manifests.spec_vals()[i2 as int],
                        manifests.spec_keys()[i2 as int],
                        json_view(*scope),
                    ));
                }
                let ghost prev = ext@;
                ext.push(b);
                proof {
                    lemma_view_seq_push(prev, ext@);
                    assert(json_view_seq(ext@) =~= spec_ext_branches_prefix(
                        *manifests,
                        i2 + 1,
                    ));
                }
                let ghost prevh = hoisted@;
                let ghost defs0 = defs@;
                hoisted.append(&mut defs);
                proof {
                    lemma_view_members_concat(prevh, defs0);
                    assert(hoisted@ == prevh + defs0);
                    assert(json_view_members(hoisted@) =~= spec_hoisted_prefix(
                        *manifests,
                        i2 + 1,
                    ));
                }
            },
            None => {
                proof {
                    assert(json_view_seq(ext@) =~= spec_ext_branches_prefix(
                        *manifests,
                        i2 + 1,
                    ));
                    assert(json_view_members(hoisted@) =~= spec_hoisted_prefix(
                        *manifests,
                        i2 + 1,
                    ));
                }
            },
        }
        i2 = i2 + 1;
    }
    let identifier_def = jobj2(
        "description",
        jstr("Permission identifier"),
        "oneOf",
        jarr(branches),
    );
    let has_ext = ext.len() > 0;
    let extended = if has_ext {
        jobj1("oneOf", jarr(ext))
    } else {
        generic_ext()
    };
    let entry_def = jobj1(
        "anyOf",
        jarr2(jobj1("$ref", jstr("#/definitions/Identifier")), extended),
    );
    let mut def_members: Vec<(String, JsonValue)> = Vec::new();
    def_members.push(("Identifier".to_owned(), identifier_def));
    def_members.push(("PermissionEntry".to_owned(), entry_def));
    let ghost two = def_members@;
    let ghost hview = json_view_members(hoisted@);
    let ghost h0 = hoisted@;
    let mut hoisted = hoisted;
    def_members.append(&mut hoisted);
    proof {
        lemma_view_members_concat(two, h0);
        assert(def_members@ == two + h0);
        assert(json_view_members(def_members@) == json_view_members(two) + hview);
    }
    let defs_obj = jobj(def_members);
    let r = jobj3(
        "$schema",
        jstr("http://json-schema.org/draft-07/schema#"),
        "title",
        jstr("CapabilityFile"),
        "definitions",
        defs_obj,
    );
    proof {
        assert(json_view_members(two) =~= seq![
            ("Identifier"@, identifier_def@),
            ("PermissionEntry"@, entry_def@),
        ]) by {
            assert(two.drop_last() =~= seq![two[0]]);
            assert(seq![two[0]].drop_last() =~= Seq::<(String, JsonValue)>::empty());
            assert(json_view_members(seq![two[0]].drop_last()) =~= Seq::<(
                Seq<char>,
                SpecJson,
            )>::empty());
            assert(json_view_members(seq![two[0]]) =~= seq![("Identifier"@, identifier_def@)]);
        }
        assert(r@ =~= spec_schema(*manifests));
    }
    r
}

/// The schema document's text. Byte-identical output for equal manifest
/// tables is immediate: the text is a function of the table alone.
pub fn generate_schema(manifests: &OrdMap<Manifest>) -> (r: String)
    requires
        manifests_wf(*manifests),
    ensures
        r@ == json_text(spec_schema(*manifests)),
{
    let v = capabilities_schema(manifests);
    encode(&v)
}

/// Schema synthesis is deterministic: two well-formed manifest tables
/// holding the same namespaces and the same manifests produce one schema
/// text, whatever order they were built in.
pub proof fn lemma_schema_deterministic(a: OrdMap<Manifest>, b: OrdMap<Manifest>)
    requires
        a.wf(),
        b.wf(),
        a@ == b@,
    ensures
        json_text(spec_schema(a)) == json_text(spec_schema(b)),
{
    lemma_table_canonical(a, b);
    assert(a.spec_keys().len() == a.spec_len());
    assert(b.spec_keys().len() == b.spec_len());
    assert(a.spec_len() == b.spec_len());
    lemma_schema_prefix_congruent(a, b, a.spec_len() as int);
}

/// Two well-formed tables with one map view are one table, sequence-wise:
/// same keys in the same order, same values at each position.
pub proof fn lemma_table_canonical(a: OrdMap<Manifest>, b: OrdMap<Manifest>)
    requires
        a.wf(),
        b.wf(),
        a@ == b@,
    ensures
        a.spec_keys() == b.spec_keys(),
        a.spec_vals() == b.spec_vals(),
{
    assert forall|k: Seq<char>| a.spec_keys().contains(k) <==> b.spec_keys().contains(k) by {
        if a.spec_keys().contains(k) {
            let w = choose|w: int| 0 <= w < a.spec_keys().len() && a.spec_keys()[w] == k;
            assert(a.pairs@[w].0@ == k);
            assert(a.spec_contains(k));
            assert(a@.dom().contains(k));
            assert(b@.dom().contains(k));
            assert(b.spec_contains(k));
            let w2 = choose|w2: int| 0 <= w2 < b.pairs@.len() && b.pairs@[w2].0@ == k;
            assert(b.spec_keys()[w2] == k);
        }
        if b.spec_keys().contains(k) {
            let w = choose|w: int| 0 <= w < b.spec_keys().len() && b.spec_keys()[w] == k;
            assert(b.pairs@[w].0@ == k);
            assert(b.spec_contains(k));
            assert(b@.dom().contains(k));
            assert(a@.dom().contains(k));
            assert(a.spec_contains(k));
            let w2 = choose|w2: int| 0 <= w2 < a.pairs@.len() && a.pairs@[w2].0@ == k;
            assert(a.spec_keys()[w2] == k);
        }
    }
    lemma_sorted_unique_canonical(a.spec_keys(), b.spec_keys());
    assert forall|t: int| 0 <= t < a.spec_vals().len() implies #[trigger] a.spec_vals()[t]
        == b.spec_vals()[t] by {
        a.lemma_index_of(t);
        b.lemma_index_of(t);
        assert(a.spec_keys()[t] == b.spec_keys()[t]);
        assert(a.pairs@[t].0@ == b.pairs@[t].0@);
        assert(a@[a.pairs@[t].0@] == b@[b.pairs@[t].0@]);
    }
    assert(a.spec_vals() =~= b.spec_vals());
}

proof fn lemma_schema_prefix_congruent(a: OrdMap<Manifest>, b: OrdMap<Manifest>, n: int)
    requires
        a.spec_keys() == b.spec_keys(),
        a.spec_vals() == b.spec_vals(),
    ensures
        spec_all_branches_prefix(a, n) == spec_all_branches_prefix(b, n),
        spec_ext_branches_prefix(a, n) == spec_ext_branches_prefix(b, n),
        spec_hoisted_prefix(a, n) == spec_hoisted_prefix(b, n),
        a.spec_len() == n && b.spec_len() == n ==> spec_schema(a) == spec_schema(b),
    decreases n,
{
    if n > 0 {
        lemma_schema_prefix_congruent(a, b, n - 1);
    }
}

} // verus!
