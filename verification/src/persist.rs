//! Deterministic persistence: manifests and capabilities serialized to a
//! stable document (namespace- and identifier-ordered), and the
//! write-if-changed decision. Repeated runs over unchanged logical input
//! produce the same bytes, so no new write.

use vstd::prelude::*;
use vstd::string::StringExecFns;

use crate::json::{
    encode, json_text, json_view, json_view_members, json_view_seq, jstr,
    lemma_json_view_members_elts, json_clone, JsonValue, SpecJson,
};
use crate::model::{Capability, DefaultPermission, Manifest, Permission, PermissionEntry,
    PermissionSet, Platform};
use crate::ordmap::OrdMap;
use crate::schema::lemma_table_canonical;

verus! {

pub open spec fn opt_str_json(d: Option<Seq<char>>) -> SpecJson {
    match d {
        Some(x) => SpecJson::Str(x),
        None => SpecJson::Null,
    }
}

pub open spec fn str_arr_json(xs: Seq<Seq<char>>) -> SpecJson {
    SpecJson::Arr(Seq::new(xs.len(), |i: int| SpecJson::Str(xs[i])))
}

/// The persisted form of one permission.
pub open spec fn spec_permission_json(p: Permission) -> SpecJson {
    SpecJson::Obj(
        seq![
            ("identifier"@, SpecJson::Str(p.identifier@)),
            ("description"@, opt_str_json(p.description.deep_view())),
            ("commands_allow"@, str_arr_json(p.commands_allow.deep_view())),
            ("commands_deny"@, str_arr_json(p.commands_deny.deep_view())),
            (
                "scope"@,
                match p.scope {
                    Some(v) => json_view(v),
                    None => SpecJson::Null,
                },
            ),
        ],
    )
}

/// The persisted form of one permission set.
pub open spec fn spec_set_json(s: PermissionSet) -> SpecJson {
    SpecJson::Obj(
        seq![
            ("identifier"@, SpecJson::Str(s.identifier@)),
            ("description"@, SpecJson::Str(s.description@)),
            ("permissions"@, str_arr_json(s.permissions.deep_view())),
        ],
    )
}

/// The persisted form of a default permission.
pub open spec fn spec_default_json(d: DefaultPermission) -> SpecJson {
    SpecJson::Obj(
        seq![
            ("description"@, opt_str_json(d.description.deep_view())),
            ("permissions"@, str_arr_json(d.permissions.deep_view())),
        ],
    )
}

/// The persisted form of one manifest: identifier tables in their sorted
/// order, the default permission, and the scope schema verbatim.
pub open spec fn spec_manifest_json(m: Manifest) -> SpecJson {
    SpecJson::Obj(
        seq![
            (
                "permissions"@,
                SpecJson::Obj(
                    Seq::new(
                        m.permissions.spec_len(),
                        |i: int|
                            (
                                m.permissions.spec_keys()[i],
                                spec_permission_json(m.permissions.spec_vals()[i]),
                            ),
                    ),
                ),
            ),
            (
                "permission_sets"@,
                SpecJson::Obj(
                    Seq::new(
                        m.permission_sets.spec_len(),
                        |i: int|
                            (
                                m.permission_sets.spec_keys()[i],
                                spec_set_json(m.permission_sets.spec_vals()[i]),
                            ),
                    ),
                ),
            ),
            (
                "default_permission"@,
                match m.default_permission {
                    Some(d) => spec_default_json(d),
                    None => SpecJson::Null,
                },
            ),
            (
                "global_scope_schema"@,
                match m.global_scope_schema {
                    Some(v) => json_view(v),
                    None => SpecJson::Null,
                },
            ),
        ],
    )
}

/// The persisted manifest document: namespace-keyed, in table order.
pub open spec fn spec_acl_json(ms: OrdMap<Manifest>) -> SpecJson {
    SpecJson::Obj(
        Seq::new(
            ms.spec_len(),
            |i: int| (ms.spec_keys()[i], spec_manifest_json(ms.spec_vals()[i])),
        ),
    )
}

/// The display name of a platform.
pub open spec fn platform_name(p: Platform) -> Seq<char> {
    match p {
        Platform::Windows => "windows"@,
        Platform::MacOs => "macOS"@,
        Platform::Linux => "linux"@,
        Platform::Android => "android"@,
        Platform::Ios => "iOS"@,
    }
}

/// The persisted form of one permission entry: the bare identifier
/// string, or the extended object when a scope is attached.
pub open spec fn spec_entry_json(e: PermissionEntry) -> SpecJson {
    if e.allow is None && e.deny is None {
        SpecJson::Str(e.identifier@)
    } else {
        SpecJson::Obj(
            seq![("identifier"@, SpecJson::Str(e.identifier@))] + (match e.allow {
                Some(xs) => seq![("allow"@, SpecJson::Arr(json_view_seq(xs@)))],
                None => Seq::<(Seq<char>, SpecJson)>::empty(),
            }) + (match e.deny {
                Some(xs) => seq![("deny"@, SpecJson::Arr(json_view_seq(xs@)))],
                None => Seq::<(Seq<char>, SpecJson)>::empty(),
            }),
        )
    }
}

/// The persisted form of one capability.
pub open spec fn spec_capability_json(c: Capability) -> SpecJson {
    SpecJson::Obj(
        seq![
            ("identifier"@, SpecJson::Str(c.identifier@)),
            (
                "platforms"@,
                match c.platforms {
                    Some(ps) => SpecJson::Arr(
                        Seq::new(ps@.len(), |i: int| SpecJson::Str(platform_name(ps@[i]))),
                    ),
                    None => SpecJson::Null,
                },
            ),
            (
                "permissions"@,
                SpecJson::Arr(
                    Seq::new(c.permissions@.len(), |i: int| spec_entry_json(c.permissions@[i])),
                ),
            ),
        ],
    )
}

/// The persisted capability document: capability-id-keyed, in table order.
pub open spec fn spec_capabilities_json(cs: OrdMap<Capability>) -> SpecJson {
    SpecJson::Obj(
        Seq::new(
            cs.spec_len(),
            |i: int| (cs.spec_keys()[i], spec_capability_json(cs.spec_vals()[i])),
        ),
    )
}

/// Whether the new serialization differs from what is stored, which is
/// the only condition under which persistence writes.
pub open spec fn spec_needs_write(previous: Option<Seq<char>>, next: Seq<char>) -> bool {
    previous != Some(next)
}

fn opt_str_to_json(d: &Option<String>) -> (r: JsonValue)
    ensures
        r@ == opt_str_json(d.deep_view()),
{
    match d {
        Some(x) => JsonValue::Str(x.clone()),
        None => JsonValue::Null,
    }
}

fn str_vec_to_json(xs: &Vec<String>) -> (r: JsonValue)
    ensures
        r@ == str_arr_json(xs.deep_view()),
{
    let mut items: Vec<JsonValue> = Vec::new();
    let n = xs.len();
    let mut i: usize = 0;
    let ghost target = Seq::new(xs.deep_view().len(), |i: int| SpecJson::Str(xs.deep_view()[i]));
    proof {
        assert(json_view_seq(items@) =~= target.take(0));
    }
    while i < n
        invariant
            n == xs@.len(),
            0 <= i <= n,
            target == Seq::new(xs.deep_view().len(), |i: int| SpecJson::Str(xs.deep_view()[i])),
            json_view_seq(items@) == target.take(i as int),
        decreases n - i,
    {
        let ghost prev = items@;
        items.push(JsonValue::Str(xs[i].clone()));
        proof {
            assert(items@.drop_last() =~= prev);
            assert(items@.last() == JsonValue::Str(xs@[i as int]));
            assert(json_view(items@.last()) == SpecJson::Str(xs@[i as int]@));
            assert(json_view_seq(items@) =~= json_view_seq(prev).push(SpecJson::Str(xs@[i as int]@)));
            assert(target[i as int] == SpecJson::Str(xs.deep_view()[i as int]));
            assert(target.take(i + 1) =~= target.take(i as int).push(target[i as int]));
            assert(json_view_seq(items@) =~= target.take(i + 1));
        }
        i = i + 1;
    }
    proof {
        assert(target.take(n as int) =~= target);
    }
    JsonValue::Arr(items)
}

fn permission_to_json(p: &Permission) -> (r: JsonValue)
    ensures
        r@ == spec_permission_json(*p),
{
    let mut ms: Vec<(String, JsonValue)> = Vec::new();
    ms.push(("identifier".to_owned(), JsonValue::Str(p.identifier.clone())));
    ms.push(("description".to_owned(), opt_str_to_json(&p.description)));
    ms.push(("commands_allow".to_owned(), str_vec_to_json(&p.commands_allow)));
    ms.push(("commands_deny".to_owned(), str_vec_to_json(&p.commands_deny)));
    let scope = match &p.scope {
        Some(v) => json_clone(v),
        None => JsonValue::Null,
    };
    ms.push(("scope".to_owned(), scope));
    proof {
        lemma_json_view_members_elts(ms@);
        assert(json_view_members(ms@) =~= spec_permission_json(*p)->Obj_0);
    }
    JsonValue::Obj(ms)
}

fn set_to_json(s: &PermissionSet) -> (r: JsonValue)
    ensures
        r@ == spec_set_json(*s),
{
    let mut ms: Vec<(String, JsonValue)> = Vec::new();
    ms.push(("identifier".to_owned(), JsonValue::Str(s.identifier.clone())));
    ms.push(("description".to_owned(), JsonValue::Str(s.description.clone())));
    ms.push(("permissions".to_owned(), str_vec_to_json(&s.permissions)));
    proof {
        lemma_json_view_members_elts(ms@);
        assert(json_view_members(ms@) =~= spec_set_json(*s)->Obj_0);
    }
    JsonValue::Obj(ms)
}

fn default_to_json(d: &DefaultPermission) -> (r: JsonValue)
    ensures
        r@ == spec_default_json(*d),
{
    let mut ms: Vec<(String, JsonValue)> = Vec::new();
    ms.push(("description".to_owned(), opt_str_to_json(&d.description)));
    ms.push(("permissions".to_owned(), str_vec_to_json(&d.permissions)));
    proof {
        lemma_json_view_members_elts(ms@);
        assert(json_view_members(ms@) =~= spec_default_json(*d)->Obj_0);
    }
    JsonValue::Obj(ms)
}

/// The persisted document node of one manifest.
pub fn manifest_to_json(m: &Manifest) -> (r: JsonValue)
    ensures
        r@ == spec_manifest_json(*m),
{
    let ghost perm_target = Seq::new(
        m.permissions.spec_len(),
        |i: int| (m.permissions.spec_keys()[i], spec_permission_json(m.permissions.spec_vals()[i])),
    );
    let mut perms: Vec<(String, JsonValue)> = Vec::new();
    let pn = m.permissions.len();
    let mut i: usize = 0;
    proof {
        assert(json_view_members(perms@) =~= perm_target.take(0));
    }
    while i < pn
        invariant
            pn == m.permissions.spec_len(),
            0 <= i <= pn,
            perm_target == Seq::new(
                m.permissions.spec_len(),
                |i2: int|
                    (
                        m.permissions.spec_keys()[i2],
                        spec_permission_json(m.permissions.spec_vals()[i2]),
                    ),
            ),
            json_view_members(perms@) == perm_target.take(i as int),
        decreases pn - i,
    {
        let ghost prev = perms@;
        perms.push((m.permissions.key_at(i).clone(), permission_to_json(m.permissions.val_at(i))));
        proof {
            assert(perms@.drop_last() =~= prev);
            assert(json_view_members(perms@) =~= json_view_members(prev).push(
                perm_target[i as int],
            ));
            assert(perm_target.take(i + 1) =~= perm_target.take(i as int).push(
                perm_target[i as int],
            ));
        }
        i = i + 1;
    }
    proof {
        assert(perm_target.take(pn as int) =~= perm_target);
    }
    let ghost set_target = Seq::new(
        m.permission_sets.spec_len(),
        |i: int| (m.permission_sets.spec_keys()[i], spec_set_json(m.permission_sets.spec_vals()[i])),
    );
    let mut sets: Vec<(String, JsonValue)> = Vec::new();
    let sn = m.permission_sets.len();
    let mut i2: usize = 0;
    proof {
        assert(json_view_members(sets@) =~= set_target.take(0));
    }
    while i2 < sn
        invariant
            sn == m.permission_sets.spec_len(),
            0 <= i2 <= sn,
            set_target == Seq::new(
                m.permission_sets.spec_len(),
                |i3: int|
                    (
                        m.permission_sets.spec_keys()[i3],
                        spec_set_json(m.permission_sets.spec_vals()[i3]),
                    ),
            ),
            json_view_members(sets@) == set_target.take(i2 as int),
        decreases sn - i2,
    {
        let ghost prev = sets@;
        sets.push(
            (m.permission_sets.key_at(i2).clone(), set_to_json(m.permission_sets.val_at(i2))),
        );
        proof {
            assert(sets@.drop_last() =~= prev);
            assert(json_view_members(sets@) =~= json_view_members(prev).push(
                set_target[i2 as int],
            ));
            assert(set_target.take(i2 + 1) =~= set_target.take(i2 as int).push(
                set_target[i2 as int],
            ));
        }
        i2 = i2 + 1;
    }
    proof {
        assert(set_target.take(sn as int) =~= set_target);
    }
    let default_node = match &m.default_permission {
        Some(d) => default_to_json(d),
        None => JsonValue::Null,
    };
    let scope_node = match &m.global_scope_schema {
        Some(v) => json_clone(v),
        None => JsonValue::Null,
    };
    let mut ms: Vec<(String, JsonValue)> = Vec::new();
    ms.push(("permissions".to_owned(), JsonValue::Obj(perms)));
    ms.push(("permission_sets".to_owned(), JsonValue::Obj(sets)));
    ms.push(("default_permission".to_owned(), default_node));
    ms.push(("global_scope_schema".to_owned(), scope_node));
    proof {
        lemma_json_view_members_elts(ms@);
        assert(json_view_members(ms@) =~= spec_manifest_json(*m)->Obj_0);
    }
    JsonValue::Obj(ms)
}

/// The persisted manifest document for the whole table.
pub fn acl_manifests_to_json(ms: &OrdMap<Manifest>) -> (r: JsonValue)
    ensures
        r@ == spec_acl_json(*ms),
{
    let ghost target = Seq::new(
        ms.spec_len(),
        |i: int| (ms.spec_keys()[i], spec_manifest_json(ms.spec_vals()[i])),
    );
    let mut members: Vec<(String, JsonValue)> = Vec::new();
    let n = ms.len();
    let mut i: usize = 0;
    proof {
        assert(json_view_members(members@) =~= target.take(0));
    }
    while i < n
        invariant
            n == ms.spec_len(),
            0 <= i <= n,
            target == Seq::new(
                ms.spec_len(),
                |i2: int| (ms.spec_keys()[i2], spec_manifest_json(ms.spec_vals()[i2])),
            ),
            json_view_members(members@) == target.take(i as int),
        decreases n - i,
    {
        let ghost prev = members@;
        members.push((ms.key_at(i).clone(), manifest_to_json(ms.val_at(i))));
        proof {
            assert(members@.drop_last() =~= prev);
            assert(json_view_members(members@) =~= json_view_members(prev).push(
                target[i as int],
            ));
            assert(target.take(i + 1) =~= target.take(i as int).push(target[i as int]));
        }
        i = i + 1;
    }
    proof {
        assert(target.take(n as int) =~= target);
    }
    JsonValue::Obj(members)
}

fn platform_str(p: Platform) -> (r: &'static str)
    ensures
        r@ == platform_name(p),
{
    match p {
        Platform::Windows => "windows",
        Platform::MacOs => "macOS",
        Platform::Linux => "linux",
        Platform::Android => "android",
        Platform::Ios => "iOS",
    }
}

fn entry_to_json(e: &PermissionEntry) -> (r: JsonValue)
    ensures
        r@ == spec_entry_json(*e),
{
    match (&e.allow, &e.deny) {
        (None, None) => JsonValue::Str(e.identifier.clone()),
        _ => {
            let mut ms: Vec<(String, JsonValue)> = Vec::new();
            ms.push(("identifier".to_owned(), JsonValue::Str(e.identifier.clone())));
            match &e.allow {
                Some(xs) => {
                    let mut items: Vec<JsonValue> = Vec::new();
                    let n = xs.len();
                    let mut i: usize = 0;
                    proof {
                        assert(json_view_seq(items@) =~= json_view_seq(xs@.take(0)));
                        assert(xs@.take(0) =~= Seq::<JsonValue>::empty());
                    }
                    while i < n
                        invariant
                            n == xs@.len(),
                            0 <= i <= n,
                            json_view_seq(items@) == json_view_seq(xs@.take(i as int)),
                        decreases n - i,
                    {
                        let ghost prev = items@;
                        items.push(json_clone(&xs[i]));
                        proof {
                            assert(items@.drop_last() =~= prev);
                            assert(xs@.take(i + 1).drop_last() =~= xs@.take(i as int));
                            assert(json_view_seq(items@) =~= json_view_seq(xs@.take(i + 1)));
                        }
                        i = i + 1;
                    }
                    proof {
                        assert(xs@.take(n as int) =~= xs@);
                    }
                    ms.push(("allow".to_owned(), JsonValue::Arr(items)));
                },
                None => {},
            }
            match &e.deny {
                Some(xs) => {
                    let mut items: Vec<JsonValue> = Vec::new();
                    let n = xs.len();
                    let mut i: usize = 0;
                    proof {
                        assert(json_view_seq(items@) =~= json_view_seq(xs@.take(0)));
                        assert(xs@.take(0) =~= Seq::<JsonValue>::empty());
                    }
                    while i < n
                        invariant
                            n == xs@.len(),
                            0 <= i <= n,
                            json_view_seq(items@) == json_view_seq(xs@.take(i as int)),
                        decreases n - i,
                    {
                        let ghost prev = items@;
                        items.push(json_clone(&xs[i]));
                        proof {
                            assert(items@.drop_last() =~= prev);
                            assert(xs@.take(i + 1).drop_last() =~= xs@.take(i as int));
                            assert(json_view_seq(items@) =~= json_view_seq(xs@.take(i + 1)));
                        }
                        i = i + 1;
                    }
                    proof {
                        assert(xs@.take(n as int) =~= xs@);
                    }
                    ms.push(("deny".to_owned(), JsonValue::Arr(items)));
                },
                None => {},
            }
            proof {
                lemma_json_view_members_elts(ms@);
                assert(json_view_members(ms@) =~= spec_entry_json(*e)->Obj_0);
            }
            JsonValue::Obj(ms)
        },
    }
}

fn capability_to_json(c: &Capability) -> (r: JsonValue)
    ensures
        r@ == spec_capability_json(*c),
{
    let platforms_node = match &c.platforms {
        Some(ps) => {
            let ghost target = Seq::new(ps@.len(), |i: int| SpecJson::Str(platform_name(ps@[i])));
            let mut items: Vec<JsonValue> = Vec::new();
            let n = ps.len();
            let mut i: usize = 0;
            proof {
                assert(json_view_seq(items@) =~= target.take(0));
            }
            while i < n
                invariant
                    n == ps@.len(),
                    0 <= i <= n,
                    target == Seq::new(ps@.len(), |i2: int| SpecJson::Str(platform_name(ps@[i2]))),
                    json_view_seq(items@) == target.take(i as int),
                decreases n - i,
            {
                let ghost prev = items@;
                items.push(jstr(platform_str(ps[i])));
                proof {
                    assert(items@.drop_last() =~= prev);
                    assert(json_view_seq(items@) =~= json_view_seq(prev).push(
                        target[i as int],
                    ));
                    assert(target.take(i + 1) =~= target.take(i as int).push(target[i as int]));
                }
                i = i + 1;
            }
            proof {
                assert(target.take(n as int) =~= target);
            }
            JsonValue::Arr(items)
        },
        None => JsonValue::Null,
    };
    let ghost etarget = Seq::new(c.permissions@.len(), |i: int| spec_entry_json(c.permissions@[i]));
    let mut entries: Vec<JsonValue> = Vec::new();
    let n = c.permissions.len();
    let mut i: usize = 0;
    proof {
        assert(json_view_seq(entries@) =~= etarget.take(0));
    }
    while i < n
        invariant
            n == c.permissions@.len(),
            0 <= i <= n,
            etarget == Seq::new(c.permissions@.len(), |i2: int| spec_entry_json(c.permissions@[i2])),
            json_view_seq(entries@) == etarget.take(i as int),
        decreases n - i,
    {
        let ghost prev = entries@;
        entries.push(entry_to_json(&c.permissions[i]));
        proof {
            assert(entries@.drop_last() =~= prev);
            assert(json_view_seq(entries@) =~= json_view_seq(prev).push(etarget[i as int]));
            assert(etarget.take(i + 1) =~= etarget.take(i as int).push(etarget[i as int]));
        }
        i = i + 1;
    }
    proof {
        assert(etarget.take(n as int) =~= etarget);
    }
    let mut ms: Vec<(String, JsonValue)> = Vec::new();
    ms.push(("identifier".to_owned(), JsonValue::Str(c.identifier.clone())));
    ms.push(("platforms".to_owned(), platforms_node));
    ms.push(("permissions".to_owned(), JsonValue::Arr(entries)));
    proof {
        lemma_json_view_members_elts(ms@);
        assert(json_view_members(ms@) =~= spec_capability_json(*c)->Obj_0);
    }
    JsonValue::Obj(ms)
}

/// The serialized manifest document: what `gen/schemas/acl-manifests.json`
/// holds.
pub fn save_acl_manifests(ms: &OrdMap<Manifest>) -> (r: String)
    ensures
        r@ == json_text(spec_acl_json(*ms)),
{
    let v = acl_manifests_to_json(ms);
    encode(&v)
}

/// The serialized capability document: what `gen/schemas/capabilities.json`
/// holds.
pub fn save_capabilities(cs: &OrdMap<Capability>) -> (r: String)
    ensures
        r@ == json_text(spec_capabilities_json(*cs)),
{
    let ghost target = Seq::new(
        cs.spec_len(),
        |i: int| (cs.spec_keys()[i], spec_capability_json(cs.spec_vals()[i])),
    );
    let mut members: Vec<(String, JsonValue)> = Vec::new();
    let n = cs.len();
    let mut i: usize = 0;
    proof {
        assert(json_view_members(members@) =~= target.take(0));
    }
    while i < n
        invariant
            n == cs.spec_len(),
            0 <= i <= n,
            target == Seq::new(
                cs.spec_len(),
                |i2: int| (cs.spec_keys()[i2], spec_capability_json(cs.spec_vals()[i2])),
            ),
            json_view_members(members@) == target.take(i as int),
        decreases n - i,
    {
        let ghost prev = members@;
        members.push((cs.key_at(i).clone(), capability_to_json(cs.val_at(i))));
        proof {
            assert(members@.drop_last() =~= prev);
            assert(json_view_members(members@) =~= json_view_members(prev).push(
                target[i as int],
            ));
            assert(target.take(i + 1) =~= target.take(i as int).push(target[i as int]));
        }
        i = i + 1;
    }
    proof {
        assert(target.take(n as int) =~= target);
    }
    let v = JsonValue::Obj(members);
    encode(&v)
}

/// The write-if-changed decision: write only when the stored content (or
/// its absence) differs from the new serialization.
pub fn should_write(previous: Option<&String>, next: &str) -> (r: bool)
    ensures
        r == spec_needs_write(
            match previous {
                Some(p) => Some(p@),
                None => None,
            },
            next@,
        ),
{
    match previous {
        Some(p) => !crate::ident::str_eq(p.as_str(), next),
        None => true,
    }
}

/// Persistence is idempotent: a second run over an unchanged manifest
/// table serializes to the stored bytes, so nothing is written.
pub proof fn lemma_persistence_idempotent(ms: OrdMap<Manifest>)
    ensures
        !spec_needs_write(
            Some(json_text(spec_acl_json(ms))),
            json_text(spec_acl_json(ms)),
        ),
{
}

/// The persisted manifest document is canonical: two well-formed tables
/// holding the same namespaces and manifests serialize to one text,
/// whatever order they were built in.
pub proof fn lemma_acl_text_deterministic(a: OrdMap<Manifest>, b: OrdMap<Manifest>)
    requires
        a.wf(),
        b.wf(),
        a@ == b@,
    ensures
        json_text(spec_acl_json(a)) == json_text(spec_acl_json(b)),
{
    lemma_table_canonical(a, b);
    assert(a.spec_keys().len() == a.spec_len());
    assert(b.spec_keys().len() == b.spec_len());
    assert(spec_acl_json(a)->Obj_0 =~= spec_acl_json(b)->Obj_0);
    assert(spec_acl_json(a) == spec_acl_json(b));
}

} // verus!
