//! Derives `allow-<command>` / `deny-<command>` permission pairs from the
//! ordered list of a namespace's exposed commands. Pure: the caller decides
//! what to do with the records, and iteration order over the commands is
//! preserved so that generated output is stable across builds.

use vstd::prelude::*;
use vstd::string::StringExecFns;

use crate::model::Permission;

verus! {

/// Identifier of the generated permission granting command `c`.
pub open spec fn allow_id(c: Seq<char>) -> Seq<char> {
    "allow-"@ + c
}

/// Identifier of the generated permission denying command `c`.
pub open spec fn deny_id(c: Seq<char>) -> Seq<char> {
    "deny-"@ + c
}

/// Description attached to the generated allow permission.
pub open spec fn allow_description(c: Seq<char>) -> Seq<char> {
    "Enables the "@ + c + " command without any pre-configured scope."@
}

/// Description attached to the generated deny permission.
pub open spec fn deny_description(c: Seq<char>) -> Seq<char> {
    "Denies the "@ + c + " command without any pre-configured scope."@
}

/// The generated identifiers in generation order: the allow identifier of
/// each command immediately followed by its deny identifier.
pub open spec fn generated_ids(cs: Seq<Seq<char>>) -> Seq<Seq<char>> {
    Seq::new(2 * cs.len(), |k: int| if k % 2 == 0 { allow_id(cs[k / 2]) } else { deny_id(cs[k / 2]) })
}

/// What autogeneration hands back: the permission records, plus the
/// generated identifiers partitioned into allowed and denied, in command
/// order, for default-rule resolution.
pub struct Autogenerated {
    pub permissions: Vec<Permission>,
    pub allowed: Vec<String>,
    pub denied: Vec<String>,
}

/// An allow identifier is never a deny identifier: the two prefixes differ
/// in their first character, so `allowed` and `denied` partition the
/// generated identifiers with no overlap, whatever the commands are.
pub proof fn lemma_allow_deny_disjoint(c1: Seq<char>, c2: Seq<char>)
    ensures
        allow_id(c1) != deny_id(c2),
{
    reveal_strlit("allow-");
    reveal_strlit("deny-");
    assert(allow_id(c1)[0] == 'a');
    assert(deny_id(c2)[0] == 'd');
}

/// Generated identifiers determine their command: equal allow (or deny)
/// identifiers come from equal commands.
pub proof fn lemma_allow_id_injective(c1: Seq<char>, c2: Seq<char>)
    requires
        allow_id(c1) == allow_id(c2),
    ensures
        c1 == c2,
{
    reveal_strlit("allow-");
    assert("allow-"@.len() == 6);
    assert(allow_id(c1).len() == 6 + c1.len());
    assert(allow_id(c2).len() == 6 + c2.len());
    assert(c1.len() == c2.len());
    assert forall|t: int| 0 <= t < c1.len() implies c1[t] == c2[t] by {
        assert(allow_id(c1)[6 + t] == c1[t]);
        assert(allow_id(c2)[6 + t] == c2[t]);
    }
    assert(c1 =~= c2);
}

/// See `lemma_allow_id_injective`.
pub proof fn lemma_deny_id_injective(c1: Seq<char>, c2: Seq<char>)
    requires
        deny_id(c1) == deny_id(c2),
    ensures
        c1 == c2,
{
    reveal_strlit("deny-");
    assert("deny-"@.len() == 5);
    assert(deny_id(c1).len() == 5 + c1.len());
    assert(deny_id(c2).len() == 5 + c2.len());
    assert(c1.len() == c2.len());
    assert forall|t: int| 0 <= t < c1.len() implies c1[t] == c2[t] by {
        assert(deny_id(c1)[5 + t] == c1[t]);
        assert(deny_id(c2)[5 + t] == c2[t]);
    }
    assert(c1 =~= c2);
}

/// The generated identifiers are exactly the allow and the deny identifier
/// of each command, and the allowed / denied partition is disjoint.
pub proof fn lemma_autogen_partition(cs: Seq<Seq<char>>)
    ensures
        generated_ids(cs).len() == 2 * cs.len(),
        forall|i: int|
            0 <= i < cs.len() ==> generated_ids(cs)[2 * i] == allow_id(cs[i]) && generated_ids(
                cs,
            )[2 * i + 1] == deny_id(cs[i]),
        forall|i: int, j: int|
            0 <= i < cs.len() && 0 <= j < cs.len() ==> #[trigger] allow_id(cs[i])
                != #[trigger] deny_id(cs[j]),
{
    assert forall|i: int, j: int| 0 <= i < cs.len() && 0 <= j < cs.len() implies #[trigger] allow_id(
        cs[i],
    ) != #[trigger] deny_id(cs[j]) by {
        lemma_allow_deny_disjoint(cs[i], cs[j]);
    }
}

fn compose(prefix: &str, c: &str, suffix: &str) -> (r: String)
    ensures
        r@ == prefix@ + c@ + suffix@,
{
    let mut out = prefix.to_owned();
    out.append(c);
    out.append(suffix);
    proof {
        assert(out@ =~= prefix@ + c@ + suffix@);
    }
    out
}

/// Generates, for every command in order, the pair of permissions
/// `allow-<command>` (granting exactly that command) and `deny-<command>`
/// (denying exactly that command), and the identifiers partitioned into
/// `allowed` / `denied`.
pub fn autogenerate_command_permissions(commands: &Vec<String>) -> (r: Autogenerated)
    ensures
        r.permissions@.len() == 2 * commands@.len(),
        r.allowed@.len() == commands@.len(),
        r.denied@.len() == commands@.len(),
        forall|k: int|
            0 <= k < r.permissions@.len() ==> (#[trigger] r.permissions@[k]).identifier@
                == generated_ids(commands.deep_view())[k],
        forall|i: int|
            0 <= i < commands@.len() ==> {
                let a = #[trigger] r.permissions@[2 * i];
                &&& a.identifier@ == allow_id(commands@[i]@)
                &&& a.description.deep_view() == Some(allow_description(commands@[i]@))
                &&& a.commands_allow.deep_view() == seq![commands@[i]@]
                &&& a.commands_deny@.len() == 0
                &&& a.scope is None
            },
        forall|i: int|
            0 <= i < commands@.len() ==> {
                let d = #[trigger] r.permissions@[2 * i + 1];
                &&& d.identifier@ == deny_id(commands@[i]@)
                &&& d.description.deep_view() == Some(deny_description(commands@[i]@))
                &&& d.commands_allow@.len() == 0
                &&& d.commands_deny.deep_view() == seq![commands@[i]@]
                &&& d.scope is None
            },
        forall|i: int|
            0 <= i < commands@.len() ==> (#[trigger] r.allowed@[i])@ == allow_id(commands@[i]@),
        forall|i: int|
            0 <= i < commands@.len() ==> (#[trigger] r.denied@[i])@ == deny_id(commands@[i]@),
{
    let mut permissions: Vec<Permission> = Vec::new();
    let mut allowed: Vec<String> = Vec::new();
    let mut denied: Vec<String> = Vec::new();
    let n = commands.len();
    let mut i: usize = 0;
    while i < n
        invariant
            n == commands@.len(),
            0 <= i <= n,
            permissions@.len() == 2 * i,
            allowed@.len() == i,
            denied@.len() == i,
            forall|j: int|
                0 <= j < i ==> {
                    let a = #[trigger] permissions@[2 * j];
                    &&& a.identifier@ == allow_id(commands@[j]@)
                    &&& a.description.deep_view() == Some(allow_description(commands@[j]@))
                    &&& a.commands_allow.deep_view() == seq![commands@[j]@]
                    &&& a.commands_deny@.len() == 0
                    &&& a.scope is None
                },
            forall|j: int|
                0 <= j < i ==> {
                    let d = #[trigger] permissions@[2 * j + 1];
                    &&& d.identifier@ == deny_id(commands@[j]@)
                    &&& d.description.deep_view() == Some(deny_description(commands@[j]@))
                    &&& d.commands_allow@.len() == 0
                    &&& d.commands_deny.deep_view() == seq![commands@[j]@]
                    &&& d.scope is None
                },
            forall|j: int| 0 <= j < i ==> (#[trigger] allowed@[j])@ == allow_id(commands@[j]@),
            forall|j: int| 0 <= j < i ==> (#[trigger] denied@[j])@ == deny_id(commands@[j]@),
        decreases n - i,
    {
        let c = &commands[i];
        let allow_ident = compose("allow-", c.as_str(), "");
        let deny_ident = compose("deny-", c.as_str(), "");
        let allow_desc = compose("Enables the ", c.as_str(), " command without any pre-configured scope.");
        let deny_desc = compose("Denies the ", c.as_str(), " command without any pre-configured scope.");
        proof {
            reveal_strlit("");
            assert(allow_ident@ =~= allow_id(commands@[i as int]@));
            assert(deny_ident@ =~= deny_id(commands@[i as int]@));
            assert(allow_desc@ =~= allow_description(commands@[i as int]@));
            assert(deny_desc@ =~= deny_description(commands@[i as int]@));
        }
        let mut one_allow: Vec<String> = Vec::new();
        one_allow.push(c.clone());
        let mut one_deny: Vec<String> = Vec::new();
        one_deny.push(c.clone());
        proof {
            assert(one_allow.deep_view() =~= seq![commands@[i as int]@]);
            assert(one_deny.deep_view() =~= seq![commands@[i as int]@]);
        }
        permissions.push(
            Permission {
                identifier: allow_ident,
                description: Some(allow_desc),
                commands_allow: one_allow,
                commands_deny: Vec::new(),
                scope: None,
            },
        );
        permissions.push(
            Permission {
                identifier: deny_ident,
                description: Some(deny_desc),
                commands_allow: Vec::new(),
                commands_deny: one_deny,
                scope: None,
            },
        );
        allowed.push(compose("allow-", c.as_str(), ""));
        denied.push(compose("deny-", c.as_str(), ""));
        proof {
            reveal_strlit("");
            assert(allowed@[i as int]@ =~= allow_id(commands@[i as int]@));
            assert(denied@[i as int]@ =~= deny_id(commands@[i as int]@));
        }
        i = i + 1;
    }
    let r = Autogenerated { permissions, allowed, denied };
    proof {
        assert forall|k: int| 0 <= k < r.permissions@.len() implies (
        #[trigger] r.permissions@[k]).identifier@ == generated_ids(commands.deep_view())[k] by {
            let j = k / 2;
            if k % 2 == 0 {
                assert(r.permissions@[2 * j].identifier@ == allow_id(commands@[j]@));
            } else {
                assert(r.permissions@[2 * j + 1].identifier@ == deny_id(commands@[j]@));
            }
            assert(commands.deep_view()[j] == commands@[j]@);
        }
    }
    r
}

} // verus!
