//! The permission parser: turns permission-definition documents into
//! typed records, and reloads the canonically persisted manifest document.
//! Reloading what persistence wrote loses nothing: the reloaded table
//! serializes to the very same document.

use vstd::prelude::*;
use vstd::string::StringExecFns;

use crate::builder::AclRecord;
use crate::ident::{lemma_lex_lt_trans, lex_lt, str_eq, str_lt};
use crate::json::{
    json_clone, json_view, json_view_members, json_view_seq, JsonValue, SpecJson,
};
use crate::model::{AclError, DefaultPermission, Manifest, Permission, PermissionSet};
use crate::ordmap::OrdMap;
use crate::persist::{
    opt_str_json, spec_acl_json, spec_default_json, spec_manifest_json, spec_permission_json,
    spec_set_json, str_arr_json,
};
use crate::validate::manifests_wf;

verus! {

/// A `description` position: a string or `null`.
pub open spec fn opt_str_shaped(v: SpecJson) -> bool {
    v is Str || v is Null
}

pub open spec fn opt_str_of(v: SpecJson) -> Option<Seq<char>> {
    match v {
        SpecJson::Str(s) => Some(s),
        _ => None,
    }
}

/// An identifier-list position: an array of strings.
pub open spec fn str_arr_shaped(v: SpecJson) -> bool {
    v matches SpecJson::Arr(items) && (forall|i: int|
        0 <= i < items.len() ==> (#[trigger] items[i]) is Str)
}

pub open spec fn str_arr_of(v: SpecJson) -> Seq<Seq<char>> {
    match v {
        SpecJson::Arr(items) => Seq::new(items.len(), |i: int| items[i]->Str_0),
        _ => Seq::empty(),
    }
}

/// The canonical shape of a persisted permission.
pub open spec fn permission_shaped(v: SpecJson) -> bool {
    v matches SpecJson::Obj(ms) && ms.len() == 5 && ms[0].0 == "identifier"@ && ms[0].1 is Str
        && ms[1].0 == "description"@ && opt_str_shaped(ms[1].1) && ms[2].0 == "commands_allow"@
        && str_arr_shaped(ms[2].1) && ms[3].0 == "commands_deny"@ && str_arr_shaped(ms[3].1)
        && ms[4].0 == "scope"@
}

/// The canonical shape of a persisted permission set.
pub open spec fn set_shaped(v: SpecJson) -> bool {
    v matches SpecJson::Obj(ms) && ms.len() == 3 && ms[0].0 == "identifier"@ && ms[0].1 is Str
        && ms[1].0 == "description"@ && ms[1].1 is Str && ms[2].0 == "permissions"@
        && str_arr_shaped(ms[2].1)
}

/// The canonical shape of a persisted default permission.
pub open spec fn default_shaped(v: SpecJson) -> bool {
    v matches SpecJson::Obj(ms) && ms.len() == 2 && ms[0].0 == "description"@ && opt_str_shaped(
        ms[0].1,
    ) && ms[1].0 == "permissions"@ && str_arr_shaped(ms[1].1)
}

fn parse_string_vec(v: &JsonValue) -> (r: Result<Vec<String>, AclError>)
    ensures
        r is Ok <==> str_arr_shaped(v@),
        r matches Ok(xs) ==> str_arr_shaped(v@) && xs.deep_view() == str_arr_of(v@),
{
    match v {
        JsonValue::Arr(items) => {
            let mut out: Vec<String> = Vec::new();
            let n = items.len();
            let mut i: usize = 0;
            #[verifier::loop_isolation(false)]
            while i < n
                invariant
                    n == items@.len(),
                    0 <= i <= n,
                    out@.len() == i,
                    forall|j: int| 0 <= j < i ==> (#[trigger] json_view_seq(items@)[j]) is Str,
                    forall|j: int|
                        0 <= j < i ==> (#[trigger] out@[j])@ == json_view_seq(items@)[j]->Str_0,
                decreases n - i,
            {
                proof {
                    crate::json::lemma_json_view_seq_elts(items@);
                }
                match &items[i] {
                    JsonValue::Str(s) => {
                        out.push(s.clone());
                    },
                    _ => {
                        proof {
                            assert(json_view_seq(items@)[i as int] == json_view(
                                items@[i as int],
                            ));
                            assert(!((json_view_seq(items@)[i as int]) is Str));
                        }
                        return Err(
                            AclError::ParseError {
                                message: "expected an array of permission identifier strings".to_owned(),
                            },
                        );
                    },
                }
                i = i + 1;
            }
            proof {
                crate::json::lemma_json_view_seq_elts(items@);
                assert(out.deep_view().len() == n);
                assert forall|j: int| 0 <= j < n implies #[trigger] out.deep_view()[j]
                    == str_arr_of(v@)[j] by {
                    assert(out.deep_view()[j] == out@[j]@);
                }
                assert(out.deep_view() =~= str_arr_of(v@));
            }
            Ok(out)
        },
        _ => Err(
            AclError::ParseError {
                message: "expected an array of permission identifier strings".to_owned(),
            },
        ),
    }
}

fn parse_opt_str(v: &JsonValue) -> (r: Result<Option<String>, AclError>)
    ensures
        r is Ok <==> opt_str_shaped(v@),
        r matches Ok(d) ==> d.deep_view() == opt_str_of(v@),
{
    match v {
        JsonValue::Str(s) => Ok(Some(s.clone())),
        JsonValue::Null => Ok(None),
        _ => Err(
            AclError::ParseError { message: "expected a string or null".to_owned() },
        ),
    }
}

/// Parses one canonically persisted permission; on success the record
/// serializes back to exactly the given document node.
pub fn parse_permission(v: &JsonValue) -> (r: Result<Permission, AclError>)
    ensures
        r is Ok <==> permission_shaped(v@),
        r matches Ok(p) ==> spec_permission_json(p) == v@,
{
    let members = match v {
        JsonValue::Obj(members) => members,
        _ => {
            return Err(
                AclError::ParseError { message: "expected a permission object".to_owned() },
            );
        },
    };
    proof {
        crate::json::lemma_json_view_members_elts(members@);
    }
    if members.len() != 5 {
        return Err(
            AclError::ParseError { message: "expected a permission object".to_owned() },
        );
    }
    if !(str_eq(members[0].0.as_str(), "identifier") && str_eq(
        members[1].0.as_str(),
        "description",
    ) && str_eq(members[2].0.as_str(), "commands_allow") && str_eq(
        members[3].0.as_str(),
        "commands_deny",
    ) && str_eq(members[4].0.as_str(), "scope")) {
        return Err(
            AclError::ParseError { message: "expected a permission object".to_owned() },
        );
    }
    let identifier = match &members[0].1 {
        JsonValue::Str(s) => s.clone(),
        _ => {
            return Err(
                AclError::ParseError { message: "expected a permission object".to_owned() },
            );
        },
    };
    let description = match parse_opt_str(&members[1].1) {
        Ok(d) => d,
        Err(e) => {
            return Err(e);
        },
    };
    let commands_allow = match parse_string_vec(&members[2].1) {
        Ok(x) => x,
        Err(e) => {
            return Err(e);
        },
    };
    let commands_deny = match parse_string_vec(&members[3].1) {
        Ok(x) => x,
        Err(e) => {
            return Err(e);
        },
    };
    let scope = match &members[4].1 {
        JsonValue::Null => None,
        other => Some(json_clone(other)),
    };
    let p = Permission { identifier, description, commands_allow, commands_deny, scope };
    proof {
        assert(spec_permission_json(p)->Obj_0 =~= v@->Obj_0) by {
            assert(opt_str_json(p.description.deep_view()) == json_view_members(members@)[1].1);
            assert(str_arr_json(p.commands_allow.deep_view()) =~= json_view_members(
                members@,
            )[2].1) by {
                assert(str_arr_json(p.commands_allow.deep_view())->Arr_0 =~= json_view_members(
                    members@,
                )[2].1->Arr_0);
            }
            assert(str_arr_json(p.commands_deny.deep_view()) =~= json_view_members(
                members@,
            )[3].1) by {
                assert(str_arr_json(p.commands_deny.deep_view())->Arr_0 =~= json_view_members(
                    members@,
                )[3].1->Arr_0);
            }
        }
        assert(spec_permission_json(p) == v@);
    }
    Ok(p)
}

/// Parses one canonically persisted permission set.
pub fn parse_set(v: &JsonValue) -> (r: Result<PermissionSet, AclError>)
    ensures
        r is Ok <==> set_shaped(v@),
        r matches Ok(s) ==> spec_set_json(s) == v@,
{
    let members = match v {
        JsonValue::Obj(members) => members,
        _ => {
            return Err(
                AclError::ParseError { message: "expected a permission set object".to_owned() },
            );
        },
    };
    proof {
        crate::json::lemma_json_view_members_elts(members@);
    }
    if members.len() != 3 {
        return Err(
            AclError::ParseError { message: "expected a permission set object".to_owned() },
        );
    }
    if !(str_eq(members[0].0.as_str(), "identifier") && str_eq(
        members[1].0.as_str(),
        "description",
    ) && str_eq(members[2].0.as_str(), "permissions")) {
        return Err(
            AclError::ParseError { message: "expected a permission set object".to_owned() },
        );
    }
    let identifier = match &members[0].1 {
        JsonValue::Str(s) => s.clone(),
        _ => {
            return Err(
                AclError::ParseError { message: "expected a permission set object".to_owned() },
            );
        },
    };
    let description = match &members[1].1 {
        JsonValue::Str(s) => s.clone(),
        _ => {
            return Err(
                AclError::ParseError { message: "expected a permission set object".to_owned() },
            );
        },
    };
    let permissions = match parse_string_vec(&members[2].1) {
        Ok(x) => x,
        Err(e) => {
            return Err(e);
        },
    };
    let s = PermissionSet { identifier, description, permissions };
    proof {
        assert(spec_set_json(s)->Obj_0 =~= v@->Obj_0) by {
            assert(str_arr_json(s.permissions.deep_view()) =~= json_view_members(
                members@,
            )[2].1) by {
                assert(str_arr_json(s.permissions.deep_view())->Arr_0 =~= json_view_members(
                    members@,
                )[2].1->Arr_0);
            }
        }
        assert(spec_set_json(s) == v@);
    }
    Ok(s)
}

/// Parses one canonically persisted default permission.
pub fn parse_default(v: &JsonValue) -> (r: Result<DefaultPermission, AclError>)
    ensures
        r is Ok <==> default_shaped(v@),
        r matches Ok(d) ==> spec_default_json(d) == v@,
{
    let members = match v {
        JsonValue::Obj(members) => members,
        _ => {
            return Err(
                AclError::ParseError { message: "expected a default permission object".to_owned() },
            );
        },
    };
    proof {
        crate::json::lemma_json_view_members_elts(members@);
    }
    if members.len() != 2 {
        return Err(
            AclError::ParseError { message: "expected a default permission object".to_owned() },
        );
    }
    if !(str_eq(members[0].0.as_str(), "description") && str_eq(
        members[1].0.as_str(),
        "permissions",
    )) {
        return Err(
            AclError::ParseError { message: "expected a default permission object".to_owned() },
        );
    }
    let description = match parse_opt_str(&members[0].1) {
        Ok(d) => d,
        Err(e) => {
            return Err(e);
        },
    };
    let permissions = match parse_string_vec(&members[1].1) {
        Ok(x) => x,
        Err(e) => {
            return Err(e);
        },
    };
    let d = DefaultPermission { description, permissions };
    proof {
        assert(spec_default_json(d)->Obj_0 =~= v@->Obj_0) by {
            assert(opt_str_json(d.description.deep_view()) == json_view_members(members@)[0].1);
            assert(str_arr_json(d.permissions.deep_view()) =~= json_view_members(
                members@,
            )[1].1) by {
                assert(str_arr_json(d.permissions.deep_view())->Arr_0 =~= json_view_members(
                    members@,
                )[1].1->Arr_0);
            }
        }
        assert(spec_default_json(d) == v@);
    }
    Ok(d)
}

/// Adjacent ascending keys make the whole sequence strictly ascending.
pub proof fn lemma_adjacent_sorted(s: Seq<Seq<char>>, i: int, j: int)
    requires
        forall|t: int| 0 <= t < s.len() - 1 ==> lex_lt(#[trigger] s[t], s[t + 1]),
        0 <= i < j < s.len(),
    ensures
        lex_lt(s[i], s[j]),
    decreases j - i,
{
    if j == i + 1 {
    } else {
        lemma_adjacent_sorted(s, i, j - 1);
        lemma_lex_lt_trans(s[i], s[j - 1], s[j]);
    }
}

/// The canonical shape of a persisted identifier table: each value a
/// permission whose identifier equals its key, keys strictly ascending.
pub open spec fn perm_table_shaped(ms: Seq<(Seq<char>, SpecJson)>) -> bool {
    &&& forall|i: int| 0 <= i < ms.len() ==> permission_shaped((#[trigger] ms[i]).1)
    &&& forall|i: int|
        0 <= i < ms.len() ==> (#[trigger] ms[i]).1->Obj_0[0].1->Str_0 == ms[i].0
    &&& forall|i: int| 0 <= i < ms.len() - 1 ==> lex_lt((#[trigger] ms[i]).0, ms[i + 1].0)
}

/// The canonical shape of a persisted permission-set table.
pub open spec fn set_table_shaped(ms: Seq<(Seq<char>, SpecJson)>) -> bool {
    &&& forall|i: int| 0 <= i < ms.len() ==> set_shaped((#[trigger] ms[i]).1)
    &&& forall|i: int|
        0 <= i < ms.len() ==> (#[trigger] ms[i]).1->Obj_0[0].1->Str_0 == ms[i].0
    &&& forall|i: int| 0 <= i < ms.len() - 1 ==> lex_lt((#[trigger] ms[i]).0, ms[i + 1].0)
}

fn parse_permission_table(members: &Vec<(String, JsonValue)>) -> (r: Result<
    OrdMap<Permission>,
    AclError,
>)
    ensures
        r is Ok <==> perm_table_shaped(json_view_members(members@)),
        r matches Ok(t) ==> {
            &&& t.wf()
            &&& t.spec_len() == members@.len()
            &&& (forall|i: int|
                0 <= i < members@.len() ==> #[trigger] t.spec_keys()[i] == json_view_members(
                    members@,
                )[i].0)
            &&& (forall|i: int|
                0 <= i < members@.len() ==> spec_permission_json(#[trigger] t.spec_vals()[i])
                    == json_view_members(members@)[i].1)
            &&& (forall|k: Seq<char>|
                #[trigger] t.spec_contains(k) ==> t.spec_at(k).identifier@ == k)
        },
{
    let ghost mv = json_view_members(members@);
    proof {
        crate::json::lemma_json_view_members_elts(members@);
    }
    let mut pairs: Vec<(String, Permission)> = Vec::new();
    let n = members.len();
    let mut i: usize = 0;
    #[verifier::loop_isolation(false)]
    while i < n
        invariant
            n == members@.len(),
            0 <= i <= n,
            pairs@.len() == i,
            forall|j: int| 0 <= j < i ==> permission_shaped((#[trigger] mv[j]).1),
            forall|j: int| 0 <= j < i ==> (#[trigger] mv[j]).1->Obj_0[0].1->Str_0 == mv[j].0,
            forall|j: int| 0 <= j < i - 1 ==> lex_lt((#[trigger] mv[j]).0, mv[j + 1].0),
            forall|j: int| 0 <= j < i ==> (#[trigger] pairs@[j]).0@ == mv[j].0,
            forall|j: int|
                0 <= j < i ==> spec_permission_json((#[trigger] pairs@[j]).1) == mv[j].1,
        decreases n - i,
    {
        let p = match parse_permission(&members[i].1) {
            Ok(p) => p,
            Err(e) => {
                return Err(e);
            },
        };
        if !str_eq(members[i].0.as_str(), p.identifier.as_str()) {
            proof {
                assert(mv[i as int].1->Obj_0[0].1->Str_0 == p.identifier@);
            }
            return Err(
                AclError::ParseError {
                    message: "permission table key does not match its identifier".to_owned(),
                },
            );
        }
        if i > 0 && !str_lt(members[i - 1].0.as_str(), members[i].0.as_str()) {
            proof {
                assert(mv[i - 1].0 == members@[i - 1].0@);
                assert(mv[i as int].0 == members@[i as int].0@);
                assert(!lex_lt(mv[i - 1].0, mv[i as int].0));
            }
            return Err(
                AclError::ParseError {
                    message: "permission table keys are not in ascending order".to_owned(),
                },
            );
        }
        proof {
            assert(mv[i as int].1->Obj_0[0].1->Str_0 == p.identifier@);
            assert(p.identifier@ == mv[i as int].0) by {
                assert(mv[i as int].0 == members@[i as int].0@);
            }
        }
        pairs.push((members[i].0.clone(), p));
        i = i + 1;
    }
    let t = OrdMap { pairs };
    proof {
        assert forall|a: int, b: int| 0 <= a < b < t.pairs@.len() implies lex_lt(
            (#[trigger] t.pairs@[a]).0@,
            (#[trigger] t.pairs@[b]).0@,
        ) by {
            assert(forall|j: int| 0 <= j < n - 1 ==> lex_lt((#[trigger] mv[j]).0, mv[j + 1].0));
            assert forall|j: int| 0 <= j < n - 1 implies lex_lt(
                (#[trigger] t.pairs@[j]).0@,
                t.pairs@[j + 1].0@,
            ) by {
                assert(t.pairs@[j].0@ == mv[j].0);
                assert(t.pairs@[j + 1].0@ == mv[j + 1].0);
            }
            lemma_adjacent_sorted(Seq::new(t.pairs@.len(), |j: int| t.pairs@[j].0@), a, b);
        }
        assert(t.wf());
        assert forall|k: Seq<char>| #[trigger] t.spec_contains(k) implies t.spec_at(
            k,
        ).identifier@ == k by {
            let w = t.spec_index_of(k);
            assert(0 <= w < t.pairs@.len() && t.pairs@[w].0@ == k);
            t.lemma_index_of(w);
            assert(spec_permission_json(t.pairs@[w].1) == mv[w].1);
            assert(mv[w].1->Obj_0[0].1->Str_0 == t.pairs@[w].1.identifier@);
        }
    }
    Ok(t)
}

fn parse_set_table(members: &Vec<(String, JsonValue)>) -> (r: Result<
    OrdMap<PermissionSet>,
    AclError,
>)
    ensures
        r is Ok <==> set_table_shaped(json_view_members(members@)),
        r matches Ok(t) ==> {
            &&& t.wf()
            &&& t.spec_len() == members@.len()
            &&& (forall|i: int|
                0 <= i < members@.len() ==> #[trigger] t.spec_keys()[i] == json_view_members(
                    members@,
                )[i].0)
            &&& (forall|i: int|
                0 <= i < members@.len() ==> spec_set_json(#[trigger] t.spec_vals()[i])
                    == json_view_members(members@)[i].1)
            &&& (forall|k: Seq<char>|
                #[trigger] t.spec_contains(k) ==> t.spec_at(k).identifier@ == k)
        },
{
    let ghost mv = json_view_members(members@);
    proof {
        crate::json::lemma_json_view_members_elts(members@);
    }
    let mut pairs: Vec<(String, PermissionSet)> = Vec::new();
    let n = members.len();
    let mut i: usize = 0;
    #[verifier::loop_isolation(false)]
    while i < n
        invariant
            n == members@.len(),
            0 <= i <= n,
            pairs@.len() == i,
            forall|j: int| 0 <= j < i ==> set_shaped((#[trigger] mv[j]).1),
            forall|j: int| 0 <= j < i ==> (#[trigger] mv[j]).1->Obj_0[0].1->Str_0 == mv[j].0,
            forall|j: int| 0 <= j < i - 1 ==> lex_lt((#[trigger] mv[j]).0, mv[j + 1].0),
            forall|j: int| 0 <= j < i ==> (#[trigger] pairs@[j]).0@ == mv[j].0,
            forall|j: int| 0 <= j < i ==> spec_set_json((#[trigger] pairs@[j]).1) == mv[j].1,
        decreases n - i,
    {
        let p = match parse_set(&members[i].1) {
            Ok(p) => p,
            Err(e) => {
                return Err(e);
            },
        };
        if !str_eq(members[i].0.as_str(), p.identifier.as_str()) {
            proof {
                assert(mv[i as int].1->Obj_0[0].1->Str_0 == p.identifier@);
            }
            return Err(
                AclError::ParseError {
                    message: "permission set table key does not match its identifier".to_owned(),
                },
            );
        }
        if i > 0 && !str_lt(members[i - 1].0.as_str(), members[i].0.as_str()) {
            proof {
                assert(mv[i - 1].0 == members@[i - 1].0@);
                assert(mv[i as int].0 == members@[i as int].0@);
                assert(!lex_lt(mv[i - 1].0, mv[i as int].0));
            }
            return Err(
                AclError::ParseError {
                    message: "permission set table keys are not in ascending order".to_owned(),
                },
            );
        }
        proof {
            assert(mv[i as int].1->Obj_0[0].1->Str_0 == p.identifier@);
            assert(p.identifier@ == mv[i as int].0) by {
                assert(mv[i as int].0 == members@[i as int].0@);
            }
        }
        pairs.push((members[i].0.clone(), p));
        i = i + 1;
    }
    let t = OrdMap { pairs };
    proof {
        assert forall|a: int, b: int| 0 <= a < b < t.pairs@.len() implies lex_lt(
            (#[trigger] t.pairs@[a]).0@,
            (#[trigger] t.pairs@[b]).0@,
        ) by {
            assert forall|j: int| 0 <= j < n - 1 implies lex_lt(
                (#[trigger] t.pairs@[j]).0@,
                t.pairs@[j + 1].0@,
            ) by {
                assert(t.pairs@[j].0@ == mv[j].0);
                assert(t.pairs@[j + 1].0@ == mv[j + 1].0);
            }
            lemma_adjacent_sorted(Seq::new(t.pairs@.len(), |j: int| t.pairs@[j].0@), a, b);
        }
        assert(t.wf());
        assert forall|k: Seq<char>| #[trigger] t.spec_contains(k) implies t.spec_at(
            k,
        ).identifier@ == k by {
            let w = t.spec_index_of(k);
            assert(0 <= w < t.pairs@.len() && t.pairs@[w].0@ == k);
            t.lemma_index_of(w);
            assert(spec_set_json(t.pairs@[w].1) == mv[w].1);
            assert(mv[w].1->Obj_0[0].1->Str_0 == t.pairs@[w].1.identifier@);
        }
    }
    Ok(t)
}

/// The canonical shape of one persisted manifest.
pub open spec fn manifest_shaped(v: SpecJson) -> bool {
    v matches SpecJson::Obj(ms) && ms.len() == 4 && ms[0].0 == "permissions"@
        && (ms[0].1 matches SpecJson::Obj(pt) && perm_table_shaped(pt)) && ms[1].0
        == "permission_sets"@ && (ms[1].1 matches SpecJson::Obj(st) && set_table_shaped(st))
        && ms[2].0 == "default_permission"@ && (ms[2].1 is Null || default_shaped(ms[2].1))
        && ms[3].0 == "global_scope_schema"@
}

/// Parses one canonically persisted manifest; on success it is
/// well-formed and serializes back to exactly the given node.
pub fn parse_manifest(v: &JsonValue) -> (r: Result<Manifest, AclError>)
    ensures
        r is Ok <==> manifest_shaped(v@),
        r matches Ok(m) ==> m.wf() && spec_manifest_json(m) == v@,
{
    let members = match v {
        JsonValue::Obj(members) => members,
        _ => {
            return Err(
                AclError::ParseError { message: "expected a manifest object".to_owned() },
            );
        },
    };
    proof {
        crate::json::lemma_json_view_members_elts(members@);
    }
    if members.len() != 4 {
        return Err(AclError::ParseError { message: "expected a manifest object".to_owned() });
    }
    if !(str_eq(members[0].0.as_str(), "permissions") && str_eq(
        members[1].0.as_str(),
        "permission_sets",
    ) && str_eq(members[2].0.as_str(), "default_permission") && str_eq(
        members[3].0.as_str(),
        "global_scope_schema",
    )) {
        return Err(AclError::ParseError { message: "expected a manifest object".to_owned() });
    }
    let permissions = match &members[0].1 {
        JsonValue::Obj(pt) => {
            proof {
                crate::json::lemma_json_view_members_elts(pt@);
            }
            match parse_permission_table(pt) {
                Ok(t) => t,
                Err(e) => {
                    return Err(e);
                },
            }
        },
        _ => {
            return Err(
                AclError::ParseError { message: "expected a permission table".to_owned() },
            );
        },
    };
    let permission_sets = match &members[1].1 {
        JsonValue::Obj(st) => {
            proof {
                crate::json::lemma_json_view_members_elts(st@);
            }
            match parse_set_table(st) {
                Ok(t) => t,
                Err(e) => {
                    return Err(e);
                },
            }
        },
        _ => {
            return Err(
                AclError::ParseError { message: "expected a permission set table".to_owned() },
            );
        },
    };
    let default_permission = match &members[2].1 {
        JsonValue::Null => None,
        other => match parse_default(other) {
            Ok(d) => Some(d),
            Err(e) => {
                return Err(e);
            },
        },
    };
    let global_scope_schema = match &members[3].1 {
        JsonValue::Null => None,
        other => Some(json_clone(other)),
    };
    let m = Manifest { permissions, permission_sets, default_permission, global_scope_schema };
    proof {
        assert(spec_manifest_json(m)->Obj_0[0].1->Obj_0 =~= json_view_members(members@)[0].1
            ->Obj_0);
        assert(spec_manifest_json(m)->Obj_0[1].1->Obj_0 =~= json_view_members(members@)[1].1
            ->Obj_0);
        assert(spec_manifest_json(m)->Obj_0 =~= v@->Obj_0);
        assert(spec_manifest_json(m) == v@);
    }
    Ok(m)
}

/// The canonical shape of the persisted manifest document.
pub open spec fn acl_shaped(v: SpecJson) -> bool {
    v matches SpecJson::Obj(ms) && (forall|i: int|
        0 <= i < ms.len() ==> manifest_shaped((#[trigger] ms[i]).1)) && (forall|i: int|
        0 <= i < ms.len() - 1 ==> lex_lt((#[trigger] ms[i]).0, ms[i + 1].0))
}

/// Reloads the persisted manifest document. On success the table is
/// well-formed and serializes back to exactly the given document, so a
/// persist / reload round trip loses nothing.
pub fn parse_acl_manifests(v: &JsonValue) -> (r: Result<OrdMap<Manifest>, AclError>)
    ensures
        r is Ok <==> acl_shaped(v@),
        r matches Ok(t) ==> manifests_wf(t) && spec_acl_json(t) == v@,
{
    let members = match v {
        JsonValue::Obj(members) => members,
        _ => {
            return Err(
                AclError::ParseError { message: "expected a manifest document".to_owned() },
            );
        },
    };
    let ghost mv = json_view_members(members@);
    proof {
        crate::json::lemma_json_view_members_elts(members@);
    }
    let mut pairs: Vec<(String, Manifest)> = Vec::new();
    let n = members.len();
    let mut i: usize = 0;
    #[verifier::loop_isolation(false)]
    while i < n
        invariant
            n == members@.len(),
            0 <= i <= n,
            pairs@.len() == i,
            forall|j: int| 0 <= j < i ==> manifest_shaped((#[trigger] mv[j]).1),
            forall|j: int| 0 <= j < i - 1 ==> lex_lt((#[trigger] mv[j]).0, mv[j + 1].0),
            forall|j: int| 0 <= j < i ==> (#[trigger] pairs@[j]).0@ == mv[j].0,
            forall|j: int|
                0 <= j < i ==> spec_manifest_json((#[trigger] pairs@[j]).1) == mv[j].1,
            forall|j: int| 0 <= j < i ==> (#[trigger] pairs@[j]).1.wf(),
        decreases n - i,
    {
        let m = match parse_manifest(&members[i].1) {
            Ok(m) => m,
            Err(e) => {
                proof {
                    assert(mv[i as int].1 == json_view(members@[i as int].1));
                    assert(!manifest_shaped(mv[i as int].1));
                }
                return Err(e);
            },
        };
        if i > 0 && !str_lt(members[i - 1].0.as_str(), members[i].0.as_str()) {
            proof {
                assert(mv[i - 1].0 == members@[i - 1].0@);
                assert(mv[i as int].0 == members@[i as int].0@);
                assert(!lex_lt(mv[i - 1].0, mv[i as int].0));
            }
            return Err(
                AclError::ParseError {
                    message: "manifest document keys are not in ascending order".to_owned(),
                },
            );
        }
        pairs.push((members[i].0.clone(), m));
        i = i + 1;
    }
    let t = OrdMap { pairs };
    proof {
        assert forall|a: int, b: int| 0 <= a < b < t.pairs@.len() implies lex_lt(
            (#[trigger] t.pairs@[a]).0@,
            (#[trigger] t.pairs@[b]).0@,
        ) by {
            assert forall|j: int| 0 <= j < n - 1 implies lex_lt(
                (#[trigger] t.pairs@[j]).0@,
                t.pairs@[j + 1].0@,
            ) by {
                assert(t.pairs@[j].0@ == mv[j].0);
                assert(t.pairs@[j + 1].0@ == mv[j + 1].0);
            }
            lemma_adjacent_sorted(Seq::new(t.pairs@.len(), |j: int| t.pairs@[j].0@), a, b);
        }
        assert(t.wf());
        assert forall|j: int| 0 <= j < t.spec_len() implies (#[trigger] t.spec_vals()[j]).wf()
            by {
            assert(t.spec_vals()[j] == t.pairs@[j].1);
        }
        assert(spec_acl_json(t)->Obj_0 =~= v@->Obj_0);
        assert(spec_acl_json(t) == v@);
    }
    Ok(t)
}

/// A well-formed manifest serializes to the canonical manifest shape.
pub proof fn lemma_manifest_serialization_shaped(m: Manifest)
    requires
        m.wf(),
    ensures
        manifest_shaped(spec_manifest_json(m)),
{
    let pt = spec_manifest_json(m)->Obj_0[0].1->Obj_0;
    assert forall|i: int| 0 <= i < pt.len() implies permission_shaped((#[trigger] pt[i]).1)
        && pt[i].1->Obj_0[0].1->Str_0 == pt[i].0 by {
        assert(pt[i].1 == spec_permission_json(m.permissions.spec_vals()[i]));
        m.permissions.lemma_index_of(i);
        assert(m.permissions.spec_contains(m.permissions.spec_keys()[i]));
        assert(m.permissions.spec_at(m.permissions.spec_keys()[i])
            == m.permissions.spec_vals()[i]);
        assert(m.permissions.spec_vals()[i].identifier@ == m.permissions.spec_keys()[i]);
    }
    assert(forall|i: int| 0 <= i < pt.len() - 1 ==> lex_lt((#[trigger] pt[i]).0, pt[i + 1].0));
    let st = spec_manifest_json(m)->Obj_0[1].1->Obj_0;
    assert forall|i: int| 0 <= i < st.len() implies set_shaped((#[trigger] st[i]).1)
        && st[i].1->Obj_0[0].1->Str_0 == st[i].0 by {
        assert(st[i].1 == spec_set_json(m.permission_sets.spec_vals()[i]));
        m.permission_sets.lemma_index_of(i);
        assert(m.permission_sets.spec_contains(m.permission_sets.spec_keys()[i]));
        assert(m.permission_sets.spec_at(m.permission_sets.spec_keys()[i])
            == m.permission_sets.spec_vals()[i]);
        assert(m.permission_sets.spec_vals()[i].identifier@ == m.permission_sets.spec_keys()[i]);
    }
    assert(forall|i: int| 0 <= i < st.len() - 1 ==> lex_lt((#[trigger] st[i]).0, st[i + 1].0));
}

/// Round trip: the persisted manifest document of a well-formed table is
/// in canonical shape, so reloading it succeeds, and by
/// `parse_acl_manifests`'s contract the reloaded table serializes to the
/// very same document: no permission, set, default or scope schema is
/// lost or changed.
pub proof fn lemma_round_trip(ms: OrdMap<Manifest>)
    requires
        manifests_wf(ms),
    ensures
        acl_shaped(spec_acl_json(ms)),
{
    let members = spec_acl_json(ms)->Obj_0;
    assert forall|i: int| 0 <= i < members.len() implies manifest_shaped(
        (#[trigger] members[i]).1,
    ) by {
        assert(members[i].1 == spec_manifest_json(ms.spec_vals()[i]));
        assert(ms.spec_vals()[i].wf());
        lemma_manifest_serialization_shaped(ms.spec_vals()[i]);
    }
    assert(forall|i: int|
        0 <= i < members.len() - 1 ==> lex_lt((#[trigger] members[i]).0, members[i + 1].0));
}

/// A `default` entry of a permission-definition document: the plain
/// default record, or one carrying an explicit identifier, which must be
/// literally `default`.
pub open spec fn default_entry_shaped(v: SpecJson) -> bool {
    default_shaped(v) || (v matches SpecJson::Obj(ms) && ms.len() == 3 && ms[0].0
        == "identifier"@ && ms[0].1 == SpecJson::Str("default"@) && ms[1].0 == "description"@
        && opt_str_shaped(ms[1].1) && ms[2].0 == "permissions"@ && str_arr_shaped(ms[2].1))
}

/// The shape of one permission-definition document: an optional default
/// entry, the permission records, and the set records.
pub open spec fn document_shaped(v: SpecJson) -> bool {
    v matches SpecJson::Obj(ms) && ms.len() == 3 && ms[0].0 == "default"@ && (ms[0].1 is Null
        || default_entry_shaped(ms[0].1)) && ms[1].0 == "permission"@ && (ms[1].1
        matches SpecJson::Arr(items) && (forall|i: int|
        0 <= i < items.len() ==> permission_shaped(#[trigger] items[i]))) && ms[2].0 == "set"@
        && (ms[2].1 matches SpecJson::Arr(items2) && (forall|i: int|
        0 <= i < items2.len() ==> set_shaped(#[trigger] items2[i])))
}

/// Parses a document's `default` entry. An explicit identifier that is
/// not literally `default` is malformed.
pub fn parse_default_entry(v: &JsonValue) -> (r: Result<DefaultPermission, AclError>)
    ensures
        r is Ok <==> default_entry_shaped(v@),
        r matches Ok(d) ==> spec_default_json(d) == (if v@->Obj_0.len() == 3 {
            SpecJson::Obj(v@->Obj_0.subrange(1, 3))
        } else {
            v@
        }),
{
    let members = match v {
        JsonValue::Obj(members) => members,
        _ => {
            return Err(
                AclError::ParseError { message: "expected a default permission entry".to_owned() },
            );
        },
    };
    proof {
        crate::json::lemma_json_view_members_elts(members@);
    }
    if members.len() == 3 {
        if !str_eq(members[0].0.as_str(), "identifier") {
            return Err(
                AclError::ParseError { message: "expected a default permission entry".to_owned() },
            );
        }
        let ok_ident = match &members[0].1 {
            JsonValue::Str(s) => str_eq(s.as_str(), "default"),
            _ => false,
        };
        if !ok_ident {
            proof {
                reveal_strlit("default");
                assert(json_view_members(members@)[0].1 != SpecJson::Str("default"@));
            }
            return Err(
                AclError::ParseError {
                    message: "a default entry's identifier must be literally default".to_owned(),
                },
            );
        }
        if !(str_eq(members[1].0.as_str(), "description") && str_eq(
            members[2].0.as_str(),
            "permissions",
        )) {
            return Err(
                AclError::ParseError { message: "expected a default permission entry".to_owned() },
            );
        }
        let description = match parse_opt_str(&members[1].1) {
            Ok(d) => d,
            Err(e) => {
                return Err(e);
            },
        };
        let permissions = match parse_string_vec(&members[2].1) {
            Ok(x) => x,
            Err(e) => {
                return Err(e);
            },
        };
        let d = DefaultPermission { description, permissions };
        proof {
            reveal_strlit("default");
            assert(json_view_members(members@)[0].1 == SpecJson::Str("default"@));
            assert(spec_default_json(d)->Obj_0 =~= v@->Obj_0.subrange(1, 3)) by {
                assert(opt_str_json(d.description.deep_view()) == json_view_members(
                    members@,
                )[1].1);
                assert(str_arr_json(d.permissions.deep_view()) =~= json_view_members(
                    members@,
                )[2].1) by {
                    assert(str_arr_json(d.permissions.deep_view())->Arr_0
                        =~= json_view_members(members@)[2].1->Arr_0);
                }
            }
            assert(spec_default_json(d) == SpecJson::Obj(v@->Obj_0.subrange(1, 3)));
            assert(default_entry_shaped(v@));
        }
        Ok(d)
    } else {
        parse_default(v)
    }
}

/// Parses one permission-definition document into its tagged records: the
/// materialized default first (when present), then the permissions, then
/// the sets, each in document order.
pub fn parse_permission_document(v: &JsonValue) -> (r: Result<Vec<AclRecord>, AclError>)
    ensures
        r is Ok <==> document_shaped(v@),
        r matches Ok(rs) ==> {
            let ms = v@->Obj_0;
            let dcount: int = if ms[0].1 is Null {
                0int
            } else {
                1int
            };
            &&& rs@.len() == dcount + ms[1].1->Arr_0.len() + ms[2].1->Arr_0.len()
            &&& (dcount == 1 ==> rs@[0] is DefaultPerm)
            &&& (forall|j: int|
                0 <= j < ms[1].1->Arr_0.len() ==> ((#[trigger] rs@[dcount + j])
                    matches AclRecord::Perm(p) && spec_permission_json(p) == ms[1].1->Arr_0[j]))
            &&& (forall|j: int|
                0 <= j < ms[2].1->Arr_0.len() ==> ((#[trigger] rs@[dcount + ms[1].1->Arr_0.len()
                    + j]) matches AclRecord::PermSet(s) && spec_set_json(s) == ms[2].1->Arr_0[j]))
        },
{
    let members = match v {
        JsonValue::Obj(members) => members,
        _ => {
            return Err(
                AclError::ParseError { message: "expected a permission document".to_owned() },
            );
        },
    };
    proof {
        crate::json::lemma_json_view_members_elts(members@);
    }
    if members.len() != 3 {
        return Err(
            AclError::ParseError { message: "expected a permission document".to_owned() },
        );
    }
    if !(str_eq(members[0].0.as_str(), "default") && str_eq(members[1].0.as_str(), "permission")
        && str_eq(members[2].0.as_str(), "set")) {
        return Err(
            AclError::ParseError { message: "expected a permission document".to_owned() },
        );
    }
    let mut rs: Vec<AclRecord> = Vec::new();
    let ghost dcount: int = if json_view_members(members@)[0].1 is Null {
        0int
    } else {
        1int
    };
    match &members[0].1 {
        JsonValue::Null => {},
        other => {
            let d = match parse_default_entry(other) {
                Ok(d) => d,
                Err(e) => {
                    return Err(e);
                },
            };
            rs.push(AclRecord::DefaultPerm(d));
        },
    }
    let perm_items = match &members[1].1 {
        JsonValue::Arr(items) => items,
        _ => {
            return Err(
                AclError::ParseError { message: "expected an array of permissions".to_owned() },
            );
        },
    };
    proof {
        crate::json::lemma_json_view_seq_elts(perm_items@);
    }
    let pn = perm_items.len();
    let mut i: usize = 0;
    #[verifier::loop_isolation(false)]
    while i < pn
        invariant
            pn == perm_items@.len(),
            0 <= i <= pn,
            rs@.len() == dcount + i,
            dcount == 1 ==> rs@[0] is DefaultPerm,
            forall|j: int|
                0 <= j < i ==> permission_shaped(
                    #[trigger] json_view_seq(perm_items@)[j],
                ),
            forall|j: int|
                0 <= j < i ==> ((#[trigger] rs@[dcount + j]) matches AclRecord::Perm(p)
                    && spec_permission_json(p) == json_view_seq(perm_items@)[j]),
        decreases pn - i,
    {
        let p = match parse_permission(&perm_items[i]) {
            Ok(p) => p,
            Err(e) => {
                proof {
                    assert(!permission_shaped(json_view_seq(perm_items@)[i as int]));
                }
                return Err(e);
            },
        };
        rs.push(AclRecord::Perm(p));
        i = i + 1;
    }
    let set_items = match &members[2].1 {
        JsonValue::Arr(items) => items,
        _ => {
            return Err(
                AclError::ParseError { message: "expected an array of permission sets".to_owned() },
            );
        },
    };
    proof {
        crate::json::lemma_json_view_seq_elts(set_items@);
    }
    let sn = set_items.len();
    let mut i2: usize = 0;
    #[verifier::loop_isolation(false)]
    while i2 < sn
        invariant
            sn == set_items@.len(),
            0 <= i2 <= sn,
            rs@.len() == dcount + pn + i2,
            dcount == 1 ==> rs@[0] is DefaultPerm,
            forall|j: int|
                0 <= j < pn ==> ((#[trigger] rs@[dcount + j]) matches AclRecord::Perm(p)
                    && spec_permission_json(p) == json_view_seq(perm_items@)[j]),
            forall|j: int|
                0 <= j < i2 ==> set_shaped(#[trigger] json_view_seq(set_items@)[j]),
            forall|j: int|
                0 <= j < i2 ==> ((#[trigger] rs@[dcount + pn + j]) matches AclRecord::PermSet(s)
                    && spec_set_json(s) == json_view_seq(set_items@)[j]),
        decreases sn - i2,
    {
        let p = match parse_set(&set_items[i2]) {
            Ok(p) => p,
            Err(e) => {
                proof {
                    assert(!set_shaped(json_view_seq(set_items@)[i2 as int]));
                }
                return Err(e);
            },
        };
        rs.push(AclRecord::PermSet(p));
        i2 = i2 + 1;
    }
    Ok(rs)
}

} // verus!
