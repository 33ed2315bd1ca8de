//! Assembles one namespace's parsed and autogenerated permission records
//! into its `Manifest`. Colliding identifiers fail construction instead of
//! silently overwriting, and a supplied default-permission rule is
//! materialized as a literal record so every downstream consumer sees one
//! canonical shape.

use vstd::prelude::*;
use vstd::string::StringExecFns;

use crate::json::JsonValue;
use crate::model::{AclError, DefaultPermission, Manifest, Permission, PermissionSet};
use crate::ordmap::OrdMap;

verus! {

/// How a namespace's default permission is derived from its autogenerated
/// command permissions.
pub enum DefaultPermissionRule {
    /// The default permission holds every generated allow identifier.
    AllowAllCommands,
    /// The default permission holds exactly the given permission
    /// identifiers (permission identifiers, not command names: a command
    /// `execute` is allowed as `allow-execute`).
    Allow(Vec<String>),
}

/// A plugin compiled into the application itself, with commands whose
/// permissions are autogenerated, an optional discovery pattern for its
/// permission definitions, and an optional default-permission rule.
pub struct InlinedPlugin {
    pub commands: Vec<String>,
    pub permissions_path_pattern: Option<String>,
    pub default: Option<DefaultPermissionRule>,
}

impl InlinedPlugin {
    pub fn new() -> (r: Self)
        ensures
            r.commands@.len() == 0,
            r.permissions_path_pattern is None,
            r.default is None,
    {
        InlinedPlugin { commands: Vec::new(), permissions_path_pattern: None, default: None }
    }

    /// Sets the commands whose `allow-`/`deny-` permissions are generated.
    pub fn commands(self, commands: Vec<String>) -> (r: Self)
        ensures
            r.commands == commands,
            r.permissions_path_pattern == self.permissions_path_pattern,
            r.default == self.default,
    {
        InlinedPlugin {
            commands,
            permissions_path_pattern: self.permissions_path_pattern,
            default: self.default,
        }
    }

    /// Sets the pattern the discovery collaborator uses to find this
    /// plugin's permission definitions.
    pub fn permissions_path_pattern(self, pattern: String) -> (r: Self)
        ensures
            r.permissions_path_pattern == Some(pattern),
            r.commands == self.commands,
            r.default == self.default,
    {
        InlinedPlugin {
            commands: self.commands,
            permissions_path_pattern: Some(pattern),
            default: self.default,
        }
    }

    /// Sets the rule the default permission is materialized from.
    pub fn default_permission(self, default: DefaultPermissionRule) -> (r: Self)
        ensures
            r.default == Some(default),
            r.commands == self.commands,
            r.permissions_path_pattern == self.permissions_path_pattern,
    {
        InlinedPlugin {
            commands: self.commands,
            permissions_path_pattern: self.permissions_path_pattern,
            default: Some(default),
        }
    }
}

/// The application's own permission manifest configuration.
pub struct AppManifest {
    pub commands: Vec<String>,
    pub permissions_path_pattern: Option<String>,
}

impl AppManifest {
    pub fn new() -> (r: Self)
        ensures
            r.commands@.len() == 0,
            r.permissions_path_pattern is None,
    {
        AppManifest { commands: Vec::new(), permissions_path_pattern: None }
    }

    /// Sets the commands whose `allow-`/`deny-` permissions are generated.
    pub fn commands(self, commands: Vec<String>) -> (r: Self)
        ensures
            r.commands == commands,
            r.permissions_path_pattern == self.permissions_path_pattern,
    {
        AppManifest { commands, permissions_path_pattern: self.permissions_path_pattern }
    }

    /// Sets the pattern the discovery collaborator uses to find the
    /// application's permission definitions.
    pub fn permissions_path_pattern(self, pattern: String) -> (r: Self)
        ensures
            r.permissions_path_pattern == Some(pattern),
            r.commands == self.commands,
    {
        AppManifest { commands: self.commands, permissions_path_pattern: Some(pattern) }
    }
}

/// One parsed record of a permission-definition document.
pub enum AclRecord {
    Perm(Permission),
    PermSet(PermissionSet),
    DefaultPerm(DefaultPermission),
}

/// Whether `r` is a permission record with identifier `k`.
pub open spec fn rec_is_perm(r: AclRecord, k: Seq<char>) -> bool {
    r matches AclRecord::Perm(p) && p.identifier@ == k
}

/// Whether `r` is a permission-set record with identifier `k`.
pub open spec fn rec_is_set(r: AclRecord, k: Seq<char>) -> bool {
    r matches AclRecord::PermSet(s) && s.identifier@ == k
}

/// Whether two records collide: two permissions or two sets with one
/// identifier, or two default records (at most one default per namespace).
pub open spec fn records_collide(a: AclRecord, b: AclRecord) -> bool {
    ||| (a matches AclRecord::Perm(p1) && b matches AclRecord::Perm(p2) && p1.identifier@
        == p2.identifier@)
    ||| (a matches AclRecord::PermSet(s1) && b matches AclRecord::PermSet(s2) && s1.identifier@
        == s2.identifier@)
    ||| (a is DefaultPerm && b is DefaultPerm)
}

/// Whether some pair of records in `rs` collides.
pub open spec fn has_collision(rs: Seq<AclRecord>) -> bool {
    exists|i: int, j: int|
        0 <= i < j < rs.len() && records_collide(#[trigger] rs[i], #[trigger] rs[j])
}

/// The identifier a collision on `r` is reported under.
pub open spec fn rec_id(r: AclRecord) -> Seq<char> {
    match r {
        AclRecord::Perm(p) => p.identifier@,
        AclRecord::PermSet(s) => s.identifier@,
        AclRecord::DefaultPerm(_) => "default"@,
    }
}

/// A well-formed manifest's identifier tables are duplicate-free: two
/// distinct permissions, or two distinct sets, never share an identifier.
/// Together with `build_manifest`'s contract — construction fails with
/// `DuplicateIdentifier` exactly when the records collide — this is what
/// rules out silent overwriting.
pub proof fn lemma_manifest_identifiers_unique(m: Manifest)
    requires
        m.wf(),
    ensures
        forall|i: int, j: int|
            0 <= i < m.permissions.spec_len() && 0 <= j < m.permissions.spec_len() && i != j
                ==> (#[trigger] m.permissions.spec_vals()[i]).identifier@ != (
            #[trigger] m.permissions.spec_vals()[j]).identifier@,
        forall|i: int, j: int|
            0 <= i < m.permission_sets.spec_len() && 0 <= j < m.permission_sets.spec_len() && i
                != j ==> (#[trigger] m.permission_sets.spec_vals()[i]).identifier@ != (
            #[trigger] m.permission_sets.spec_vals()[j]).identifier@,
{
    m.permissions.lemma_keys_distinct();
    m.permission_sets.lemma_keys_distinct();
    assert forall|i: int, j: int|
        0 <= i < m.permissions.spec_len() && 0 <= j < m.permissions.spec_len() && i != j
        implies (#[trigger] m.permissions.spec_vals()[i]).identifier@ != (
    #[trigger] m.permissions.spec_vals()[j]).identifier@ by {
        m.permissions.lemma_index_of(i);
        m.permissions.lemma_index_of(j);
        assert(m.permissions.spec_vals()[i].identifier@ == m.permissions.spec_keys()[i]);
        assert(m.permissions.spec_vals()[j].identifier@ == m.permissions.spec_keys()[j]);
    }
    assert forall|i: int, j: int|
        0 <= i < m.permission_sets.spec_len() && 0 <= j < m.permission_sets.spec_len() && i != j
        implies (#[trigger] m.permission_sets.spec_vals()[i]).identifier@ != (
    #[trigger] m.permission_sets.spec_vals()[j]).identifier@ by {
        m.permission_sets.lemma_index_of(i);
        m.permission_sets.lemma_index_of(j);
        assert(m.permission_sets.spec_vals()[i].identifier@ == m.permission_sets.spec_keys()[i]);
        assert(m.permission_sets.spec_vals()[j].identifier@ == m.permission_sets.spec_keys()[j]);
    }
}

/// The manifest holds exactly the given records, keyed by identifier:
/// every permission, set and default record is present under its
/// identifier, nothing else is, and the scope schema is attached
/// verbatim.
pub open spec fn manifest_matches_records(
    records: Seq<AclRecord>,
    global_scope_schema: Option<JsonValue>,
    m: Manifest,
) -> bool {
    &&& m.wf()
    &&& m.global_scope_schema == global_scope_schema
    &&& forall|i: int|
        0 <= i < records.len() ==> (#[trigger] records[i] matches AclRecord::Perm(p)
            ==> m.permissions.spec_contains(p.identifier@) && m.permissions.spec_at(p.identifier@)
            == p)
    &&& forall|i: int|
        0 <= i < records.len() ==> (#[trigger] records[i] matches AclRecord::PermSet(s)
            ==> m.permission_sets.spec_contains(s.identifier@) && m.permission_sets.spec_at(
            s.identifier@) == s)
    &&& forall|i: int|
        0 <= i < records.len() ==> (#[trigger] records[i] matches AclRecord::DefaultPerm(d)
            ==> m.default_permission == Some(d))
    &&& forall|k: Seq<char>|
        #[trigger] m.permissions.spec_contains(k) ==> exists|i: int|
            0 <= i < records.len() && rec_is_perm(#[trigger] records[i], k)
    &&& forall|k: Seq<char>|
        #[trigger] m.permission_sets.spec_contains(k) ==> exists|i: int|
            0 <= i < records.len() && rec_is_set(#[trigger] records[i], k)
    &&& (m.default_permission is Some <==> exists|i: int|
        0 <= i < records.len() && (#[trigger] records[i]) is DefaultPerm)
}

/// Builds the namespace's manifest from its records. The manifest holds
/// exactly the given records, keyed by identifier; a collision fails with
/// `DuplicateIdentifier` naming the colliding identifier, instead of
/// overwriting.
#[verifier::loop_isolation(false)]
pub fn build_manifest(
    namespace: &str,
    records: Vec<AclRecord>,
    global_scope_schema: Option<JsonValue>,
) -> (r: Result<Manifest, AclError>)
    ensures
        r is Ok ==> !has_collision(records@),
        r is Err ==> has_collision(records@),
        r matches Ok(m) ==> manifest_matches_records(records@, global_scope_schema, m),
        r matches Err(e) ==> e matches AclError::DuplicateIdentifier {
            namespace: ns,
            identifier: id,
        } && ns@ == namespace@ && (exists|i: int, j: int|
            0 <= i < j < records@.len() && records_collide(#[trigger] records@[i], #[trigger] records@[j])
                && id@ == rec_id(records@[j])),
{
    let ghost rs0 = records@;
    let mut records = records;
    let mut permissions: OrdMap<Permission> = OrdMap::new();
    let mut permission_sets: OrdMap<PermissionSet> = OrdMap::new();
    let mut default_permission: Option<DefaultPermission> = None;
    let mut idx: usize = 0;
    let n = records.len();
    while idx < n
        invariant
            n == rs0.len(),
            0 <= idx <= n,
            records@ == rs0.subrange(idx as int, n as int),
            permissions.wf(),
            permission_sets.wf(),
            forall|k: Seq<char>|
                #[trigger] permissions.spec_contains(k) ==> permissions.spec_at(k).identifier@
                    == k,
            forall|k: Seq<char>|
                #[trigger] permission_sets.spec_contains(k) ==> permission_sets.spec_at(
                    k,
                ).identifier@ == k,
            forall|i: int|
                0 <= i < idx ==> (#[trigger] rs0[i] matches AclRecord::Perm(p)
                    ==> permissions.spec_contains(p.identifier@) && permissions.spec_at(p.identifier@)
                    == p),
            forall|i: int|
                0 <= i < idx ==> (#[trigger] rs0[i] matches AclRecord::PermSet(s)
                    ==> permission_sets.spec_contains(s.identifier@)
                    && permission_sets.spec_at(s.identifier@) == s),
            forall|i: int|
                0 <= i < idx ==> (#[trigger] rs0[i] matches AclRecord::DefaultPerm(d)
                    ==> default_permission == Some(d)),
            forall|k: Seq<char>|
                #[trigger] permissions.spec_contains(k) ==> exists|i: int|
                    0 <= i < idx && rec_is_perm(#[trigger] rs0[i], k),
            forall|k: Seq<char>|
                #[trigger] permission_sets.spec_contains(k) ==> exists|i: int|
                    0 <= i < idx && rec_is_set(#[trigger] rs0[i], k),
            (default_permission is Some <==> exists|i: int|
                0 <= i < idx && (#[trigger] rs0[i]) is DefaultPerm),
            !has_collision(rs0.subrange(0, idx as int)),
        decreases n - idx,
    {
        let rec = records.remove(0);
        proof {
            assert(rec == rs0[idx as int]);
            assert(records@ =~= rs0.subrange(idx + 1, n as int));
        }
        let ghost prev_perms = permissions;
        let ghost prev_sets = permission_sets;
        match rec {
            AclRecord::Perm(p) => {
                let key = p.identifier.clone();
                let err_id = p.identifier.clone();
                let ghost pk = p.identifier@;
                if !permissions.insert_or_fail(key, p) {
                    proof {
                        let w = choose|w: int| 0 <= w < idx && rec_is_perm(rs0[w], pk);
                        assert(0 <= w < idx && rec_is_perm(rs0[w], pk));
                        assert(records_collide(rs0[w], rs0[idx as int]));
                        assert(has_collision(rs0));
                        assert(rec_id(rs0[idx as int]) == pk);
                    }
                    return Err(
                        AclError::DuplicateIdentifier {
                            namespace: namespace.to_owned(),
                            identifier: err_id,
                        },
                    );
                }
                proof {
                    assert(rec_is_perm(rs0[idx as int], pk));
                    assert forall|k: Seq<char>| #[trigger] permissions.spec_contains(k)
                        implies exists|i: int|
                        0 <= i < idx + 1 && rec_is_perm(#[trigger] rs0[i], k) by {
                        if k == pk {
                            assert(rec_is_perm(rs0[idx as int], k));
                        } else {
                            assert(prev_perms.spec_contains(k));
                        }
                    }
                    assert forall|i: int, j: int|
                        0 <= i < j < idx + 1 implies !records_collide(
                        #[trigger] rs0[i],
                        #[trigger] rs0[j],
                    ) by {
                        let sub = rs0.subrange(0, idx as int);
                        if j < idx {
                            assert(sub[i] == rs0[i]);
                            assert(sub[j] == rs0[j]);
                            assert(!records_collide(sub[i], sub[j]));
                        } else if records_collide(rs0[i], rs0[j]) {
                            assert(rec_is_perm(rs0[i], pk));
                            assert(prev_perms.spec_contains(pk));
                        }
                    }
                }
            },
            AclRecord::PermSet(s) => {
                let key = s.identifier.clone();
                let err_id = s.identifier.clone();
                let ghost sk = s.identifier@;
                if !permission_sets.insert_or_fail(key, s) {
                    proof {
                        let w = choose|w: int| 0 <= w < idx && rec_is_set(rs0[w], sk);
                        assert(0 <= w < idx && rec_is_set(rs0[w], sk));
                        assert(records_collide(rs0[w], rs0[idx as int]));
                        assert(has_collision(rs0));
                        assert(rec_id(rs0[idx as int]) == sk);
                    }
                    return Err(
                        AclError::DuplicateIdentifier {
                            namespace: namespace.to_owned(),
                            identifier: err_id,
                        },
                    );
                }
                proof {
                    assert(rec_is_set(rs0[idx as int], sk));
                    assert forall|k: Seq<char>| #[trigger] permission_sets.spec_contains(k)
                        implies exists|i: int|
                        0 <= i < idx + 1 && rec_is_set(#[trigger] rs0[i], k) by {
                        if k == sk {
                            assert(rec_is_set(rs0[idx as int], k));
                        } else {
                            assert(prev_sets.spec_contains(k));
                        }
                    }
                    assert forall|i: int, j: int|
                        0 <= i < j < idx + 1 implies !records_collide(
                        #[trigger] rs0[i],
                        #[trigger] rs0[j],
                    ) by {
                        let sub = rs0.subrange(0, idx as int);
                        if j < idx {
                            assert(sub[i] == rs0[i]);
                            assert(sub[j] == rs0[j]);
                            assert(!records_collide(sub[i], sub[j]));
                        } else if records_collide(rs0[i], rs0[j]) {
                            assert(rec_is_set(rs0[i], sk));
                            assert(prev_sets.spec_contains(sk));
                        }
                    }
                }
            },
            AclRecord::DefaultPerm(d) => {
                if default_permission.is_some() {
                    proof {
                        let w = choose|w: int| 0 <= w < idx && (#[trigger] rs0[w]) is DefaultPerm;
                        assert(0 <= w < idx && (rs0[w]) is DefaultPerm);
                        assert(records_collide(rs0[w], rs0[idx as int]));
                        assert(has_collision(rs0));
                        assert(rec_id(rs0[idx as int]) == "default"@);
                    }
                    return Err(
                        AclError::DuplicateIdentifier {
                            namespace: namespace.to_owned(),
                            identifier: "default".to_owned(),
                        },
                    );
                }
                default_permission = Some(d);
                proof {
                    assert((rs0[idx as int]) is DefaultPerm);
                    assert forall|i: int, j: int|
                        0 <= i < j < idx + 1 implies !records_collide(
                        #[trigger] rs0[i],
                        #[trigger] rs0[j],
                    ) by {
                        let sub = rs0.subrange(0, idx as int);
                        if j < idx {
                            assert(sub[i] == rs0[i]);
                            assert(sub[j] == rs0[j]);
                            assert(!records_collide(sub[i], sub[j]));
                        } else if records_collide(rs0[i], rs0[j]) {
                            assert((rs0[i]) is DefaultPerm);
                        }
                    }
                }
            },
        }
        idx = idx + 1;
    }
    proof {
        assert(rs0.subrange(0, n as int) =~= rs0);
    }
    Ok(
        Manifest {
            permissions,
            permission_sets,
            default_permission,
            global_scope_schema,
        },
    )
}

/// Materializes a default-permission rule as a literal record:
/// `AllowAllCommands` takes the full allowed set from autogeneration, and
/// `Allow` takes exactly the given identifiers.
pub fn materialize_default_rule(rule: DefaultPermissionRule, allowed: Vec<String>) -> (r:
    DefaultPermission)
    ensures
        r.description is None,
        rule matches DefaultPermissionRule::AllowAllCommands ==> r.permissions == allowed,
        rule matches DefaultPermissionRule::Allow(list) ==> r.permissions == list,
{
    match rule {
        DefaultPermissionRule::AllowAllCommands => DefaultPermission {
            description: None,
            permissions: allowed,
        },
        DefaultPermissionRule::Allow(list) => DefaultPermission {
            description: None,
            permissions: list,
        },
    }
}

/// Whether a set member resolves inside its own namespace: the implicit
/// `default` target, or a permission the namespace holds.
pub open spec fn member_resolves(m: Manifest, member: Seq<char>) -> bool {
    member == "default"@ || m.permissions.spec_contains(member)
}

/// Every member of every permission set of the manifest resolves inside
/// its namespace.
pub open spec fn member_resolves_all(m: Manifest) -> bool {
    forall|i: int, j: int|
        0 <= i < m.permission_sets.spec_len() && 0 <= j
            < m.permission_sets.spec_vals()[i].permissions@.len() ==> member_resolves(
            m,
            #[trigger] m.permission_sets.spec_vals()[i].permissions.deep_view()[j],
        )
}

/// Checks that every permission set of the manifest only references
/// permissions its namespace holds (or the always-valid `default`); the
/// first unresolved member fails with `UnresolvedReference`.
pub fn check_set_references(namespace: &str, m: &Manifest) -> (r: Result<(), AclError>)
    requires
        m.wf(),
    ensures
        r is Ok <==> member_resolves_all(*m),
        r matches Err(e) ==> e matches AclError::UnresolvedReference {
            namespace: ns,
            set_identifier: sid,
            permission: perm,
        } && ns@ == namespace@ && (exists|i: int, j: int|
            0 <= i < m.permission_sets.spec_len() && 0 <= j
                < m.permission_sets.spec_vals()[i].permissions@.len() && !member_resolves(
                *m,
                #[trigger] m.permission_sets.spec_vals()[i].permissions.deep_view()[j],
            ) && sid@ == m.permission_sets.spec_vals()[i].identifier@ && perm@
                == m.permission_sets.spec_vals()[i].permissions.deep_view()[j]),
{
    let n = m.permission_sets.len();
    let mut i: usize = 0;
    while i < n
        invariant
            m.wf(),
            n == m.permission_sets.spec_len(),
            0 <= i <= n,
            forall|i2: int, j2: int|
                0 <= i2 < i && 0 <= j2 < m.permission_sets.spec_vals()[i2].permissions@.len()
                    ==> member_resolves(
                    *m,
                    #[trigger] m.permission_sets.spec_vals()[i2].permissions.deep_view()[j2],
                ),
        decreases n - i,
    {
        let set = m.permission_sets.val_at(i);
        let k = set.permissions.len();
        let mut j: usize = 0;
        while j < k
            invariant
                m.wf(),
                n == m.permission_sets.spec_len(),
                0 <= i < n,
                *set == m.permission_sets.spec_vals()[i as int],
                k == set.permissions@.len(),
                0 <= j <= k,
                forall|j2: int|
                    0 <= j2 < j ==> member_resolves(
                        *m,
                        m.permission_sets.spec_vals()[i as int].permissions.deep_view()[j2],
                    ),
            decreases k - j,
        {
            let member = &set.permissions[j];
            let is_default = crate::ident::str_eq(member.as_str(), "default");
            if !is_default && !m.permissions.contains_key(member.as_str()) {
                proof {
                    assert(set.permissions.deep_view()[j as int] == member@);
                    assert(!member_resolves(*m, member@));
                }
                return Err(
                    AclError::UnresolvedReference {
                        namespace: namespace.to_owned(),
                        set_identifier: set.identifier.clone(),
                        permission: member.clone(),
                    },
                );
            }
            proof {
                assert(set.permissions.deep_view()[j as int] == member@);
            }
            j = j + 1;
        }
        i = i + 1;
    }
    Ok(())
}

} // verus!
