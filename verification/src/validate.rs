//! Validates capability declarations against the manifest set: every
//! referenced permission must resolve, honoring platform scoping, with the
//! reserved `core:default` always accepted. A failure carries the offending
//! identifier and the full list of valid identifiers in canonical order.

use vstd::prelude::*;
use vstd::string::StringExecFns;

use crate::ident::{canonical_id, make_canonical, spec_base, spec_prefix, split_ref, str_eq};
use crate::model::{AclError, Capability, Manifest, Platform};
use crate::ordmap::OrdMap;

verus! {

/// The namespace key a reference resolves to: its prefix, or the
/// application namespace when bare.
pub open spec fn resolved_ns(s: Seq<char>) -> Seq<char> {
    match spec_prefix(s) {
        Some(p) => p,
        None => crate::APP_ACL_KEY@,
    }
}

/// Whether one referenced identifier resolves against the manifest set:
/// the reserved `core:default` unconditionally; otherwise its namespace
/// must hold a manifest and the base must be `default`, a permission, or a
/// permission set of that namespace.
pub open spec fn entry_allowed(manifests: OrdMap<Manifest>, ident: Seq<char>) -> bool {
    let ns = resolved_ns(ident);
    let base = spec_base(ident);
    ||| (ns == "core"@ && base == "default"@)
    ||| (manifests.spec_contains(ns) && {
        ||| base == "default"@
        ||| manifests.spec_at(ns).permissions.spec_contains(base)
        ||| manifests.spec_at(ns).permission_sets.spec_contains(base)
    })
}

/// Whether a capability is subject to validation for `target`: it is when
/// it declares no platform list, or its list holds the target.
pub open spec fn cap_applicable(cap: Capability, target: Platform) -> bool {
    match cap.platforms {
        None => true,
        Some(ps) => ps@.contains(target),
    }
}

/// A capability passes when it is platform-inapplicable, or every one of
/// its permission entries resolves.
pub open spec fn cap_ok(manifests: OrdMap<Manifest>, cap: Capability, target: Platform) -> bool {
    cap_applicable(cap, target) ==> forall|e: int|
        0 <= e < cap.permissions@.len() ==> entry_allowed(
            manifests,
            (#[trigger] cap.permissions@[e]).identifier@,
        )
}

/// The valid identifiers one namespace contributes to the error listing:
/// its `default` (when materialized), then its permissions, then its sets,
/// each in canonical form.
pub open spec fn avail_for_ns(m: Manifest, key: Seq<char>) -> Seq<Seq<char>> {
    (if m.default_permission is Some {
        seq![canonical_id(key, "default"@)]
    } else {
        Seq::<Seq<char>>::empty()
    }) + m.permissions.spec_keys().map_values(|b: Seq<char>| canonical_id(key, b))
        + m.permission_sets.spec_keys().map_values(|b: Seq<char>| canonical_id(key, b))
}

pub open spec fn spec_available_prefix(ms: OrdMap<Manifest>, n: int) -> Seq<Seq<char>>
    decreases n,
{
    if n <= 0 {
        Seq::empty()
    } else {
        spec_available_prefix(ms, n - 1) + avail_for_ns(ms.spec_vals()[n - 1], ms.spec_keys()[n - 1])
    }
}

/// Every valid identifier across every namespace, namespace-prefixed
/// except for the application namespace, in table order.
pub open spec fn spec_available(ms: OrdMap<Manifest>) -> Seq<Seq<char>> {
    spec_available_prefix(ms, ms.spec_len() as int)
}

/// Whether every manifest stored in the table is well-formed.
pub open spec fn manifests_wf(ms: OrdMap<Manifest>) -> bool {
    &&& ms.wf()
    &&& forall|i: int| 0 <= i < ms.spec_len() ==> (#[trigger] ms.spec_vals()[i]).wf()
}

proof fn lemma_deep_view_push(prev: Vec<String>, cur: Vec<String>, s: Seq<char>)
    requires
        cur@ == prev@.push(cur@[prev@.len() as int]),
        cur@[prev@.len() as int]@ == s,
    ensures
        cur.deep_view() == prev.deep_view().push(s),
{
    assert forall|t: int| 0 <= t < cur@.len() implies #[trigger] cur.deep_view()[t]
        == prev.deep_view().push(s)[t] by {
        assert(cur.deep_view()[t] == cur@[t]@);
        if t < prev@.len() {
            assert(cur@[t] == prev@[t]);
            assert(prev.deep_view()[t] == prev@[t]@);
        }
    }
    assert(cur.deep_view() =~= prev.deep_view().push(s));
}

fn platforms_contain(ps: &Vec<Platform>, t: Platform) -> (r: bool)
    ensures
        r == ps@.contains(t),
{
    let n = ps.len();
    let mut i: usize = 0;
    while i < n
        invariant
            n == ps@.len(),
            0 <= i <= n,
            forall|j: int| 0 <= j < i ==> ps@[j] != t,
        decreases n - i,
    {
        if ps[i] == t {
            return true;
        }
        i = i + 1;
    }
    false
}

/// Collects every valid identifier across every namespace, in canonical
/// order, for the validation error message.
fn enumerate_valid(manifests: &OrdMap<Manifest>) -> (r: Vec<String>)
    requires
        manifests_wf(*manifests),
    ensures
        r.deep_view() == spec_available(*manifests),
{
    let mut out: Vec<String> = Vec::new();
    let n = manifests.len();
    let mut i: usize = 0;
    proof {
        assert(out.deep_view() =~= spec_available_prefix(*manifests, 0));
    }
    while i < n
        invariant
            manifests_wf(*manifests),
            n == manifests.spec_len(),
            0 <= i <= n,
            out.deep_view() == spec_available_prefix(*manifests, i as int),
        decreases n - i,
    {
        let key = manifests.key_at(i);
        let m = manifests.val_at(i);
        let ghost kview = manifests.spec_keys()[i as int];
        let ghost pre = out.deep_view();
        if m.default_permission.is_some() {
            let ghost prev_vec0 = out;
            out.push(make_canonical(key.as_str(), "default"));
            proof {
                reveal_strlit("default");
                lemma_deep_view_push(prev_vec0, out, canonical_id(kview, "default"@));
                assert(out.deep_view() =~= pre + seq![canonical_id(kview, "default"@)]);
            }
        }
        let ghost pre2 = out.deep_view();
        let pn = m.permissions.len();
        let mut j: usize = 0;
        while j < pn
            invariant
                manifests_wf(*manifests),
                0 <= i < n,
                n == manifests.spec_len(),
                *m == manifests.spec_vals()[i as int],
                kview == manifests.spec_keys()[i as int],
                key@ == kview,
                pn == m.permissions.spec_len(),
                0 <= j <= pn,
                out.deep_view() == pre2 + m.permissions.spec_keys().map_values(
                    |b: Seq<char>| canonical_id(kview, b),
                ).take(j as int),
            decreases pn - j,
        {
            let ghost pre3 = out.deep_view();
            let ghost prev_vec = out;
            out.push(make_canonical(key.as_str(), m.permissions.key_at(j).as_str()));
            proof {
                let mapped = m.permissions.spec_keys().map_values(
                    |b: Seq<char>| canonical_id(kview, b),
                );
                assert(mapped[j as int] == canonical_id(kview, m.permissions.spec_keys()[j as int]));
                lemma_deep_view_push(prev_vec, out, mapped[j as int]);
                assert(out.deep_view() =~= pre3.push(mapped[j as int]));
                assert(mapped.take(j + 1) =~= mapped.take(j as int).push(mapped[j as int]));
                assert(out.deep_view() =~= pre2 + mapped.take(j + 1));
            }
            j = j + 1;
        }
        let ghost pre4 = out.deep_view();
        let sn = m.permission_sets.len();
        let mut j2: usize = 0;
        while j2 < sn
            invariant
                manifests_wf(*manifests),
                0 <= i < n,
                n == manifests.spec_len(),
                *m == manifests.spec_vals()[i as int],
                kview == manifests.spec_keys()[i as int],
                key@ == kview,
                sn == m.permission_sets.spec_len(),
                0 <= j2 <= sn,
                out.deep_view() == pre4 + m.permission_sets.spec_keys().map_values(
                    |b: Seq<char>| canonical_id(kview, b),
                ).take(j2 as int),
            decreases sn - j2,
        {
            let ghost pre5 = out.deep_view();
            let ghost prev_vec2 = out;
            out.push(make_canonical(key.as_str(), m.permission_sets.key_at(j2).as_str()));
            proof {
                let mapped = m.permission_sets.spec_keys().map_values(
                    |b: Seq<char>| canonical_id(kview, b),
                );
                assert(mapped[j2 as int] == canonical_id(
                    kview,
                    m.permission_sets.spec_keys()[j2 as int],
                ));
                lemma_deep_view_push(prev_vec2, out, mapped[j2 as int]);
                assert(out.deep_view() =~= pre5.push(mapped[j2 as int]));
                assert(mapped.take(j2 + 1) =~= mapped.take(j2 as int).push(mapped[j2 as int]));
                assert(out.deep_view() =~= pre4 + mapped.take(j2 + 1));
            }
            j2 = j2 + 1;
        }
        proof {
            let mp = m.permissions.spec_keys().map_values(|b: Seq<char>| canonical_id(kview, b));
            let ms2 = m.permission_sets.spec_keys().map_values(
                |b: Seq<char>| canonical_id(kview, b),
            );
            assert(mp.take(pn as int) =~= mp);
            assert(ms2.take(sn as int) =~= ms2);
            assert(out.deep_view() =~= pre + avail_for_ns(
                manifests.spec_vals()[i as int],
                kview,
            ));
            assert(out.deep_view() =~= spec_available_prefix(*manifests, i + 1));
        }
        i = i + 1;
    }
    out
}

/// Validates every capability against the manifest set. Succeeds exactly
/// when every platform-applicable capability's entries all resolve under
/// the rule of `entry_allowed`; the first failure carries the offending
/// identifier and every valid identifier.
#[verifier::loop_isolation(false)]
pub fn validate_capabilities(
    manifests: &OrdMap<Manifest>,
    capabilities: &OrdMap<Capability>,
    target: Platform,
) -> (r: Result<(), AclError>)
    requires
        manifests_wf(*manifests),
        capabilities.wf(),
    ensures
        r is Ok <==> (forall|c: int|
            0 <= c < capabilities.spec_len() ==> cap_ok(
                *manifests,
                #[trigger] capabilities.spec_vals()[c],
                target,
            )),
        r matches Err(e) ==> e matches AclError::InvalidCapabilityPermission {
            identifier: id,
            available: av,
        } && av.deep_view() == spec_available(*manifests) && (exists|c: int, e2: int|
            0 <= c < capabilities.spec_len() && cap_applicable(
                capabilities.spec_vals()[c],
                target,
            ) && 0 <= e2 < capabilities.spec_vals()[c].permissions@.len() && !entry_allowed(
                *manifests,
                (#[trigger] capabilities.spec_vals()[c].permissions@[e2]).identifier@,
            ) && id@ == capabilities.spec_vals()[c].permissions@[e2].identifier@
            // fail-fast: the reported entry is the first invalid one, walking
            // capabilities in ascending id order and entries in declaration order
             && (forall|c2: int|
                0 <= c2 < c ==> cap_ok(*manifests, #[trigger] capabilities.spec_vals()[c2], target))
             && (forall|e3: int|
                0 <= e3 < e2 ==> entry_allowed(
                    *manifests,
                    (#[trigger] capabilities.spec_vals()[c].permissions@[e3]).identifier@,
                ))),
{
    let n = capabilities.len();
    let mut c: usize = 0;
    while c < n
        invariant
            0 <= c <= n,
            forall|c2: int|
                0 <= c2 < c ==> cap_ok(*manifests, #[trigger] capabilities.spec_vals()[c2], target),
        decreases n - c,
    {
        let cap = capabilities.val_at(c);
        let applicable = match &cap.platforms {
            None => true,
            Some(ps) => platforms_contain(ps, target),
        };
        if applicable {
            let en = cap.permissions.len();
            let mut e: usize = 0;
            while e < en
                invariant
                    0 <= c < n,
                    cap == &capabilities.spec_vals()[c as int],
                    en == cap.permissions@.len(),
                    0 <= e <= en,
                    forall|e2: int|
                        0 <= e2 < e ==> entry_allowed(
                            *manifests,
                            (#[trigger] cap.permissions@[e2]).identifier@,
                        ),
                decreases en - e,
            {
                let ident = &cap.permissions[e].identifier;
                let (prefix, base) = split_ref(ident.as_str());
                let ns_key: String = match prefix {
                    Some(p) => p,
                    None => crate::APP_ACL_KEY.to_owned(),
                };
                proof {
                    assert(ns_key@ == resolved_ns(ident@));
                    assert(base@ == spec_base(ident@));
                }
                let is_core_default = str_eq(ns_key.as_str(), "core") && str_eq(
                    base.as_str(),
                    "default",
                );
                let mut ok = is_core_default;
                if !ok {
                    match manifests.get(ns_key.as_str()) {
                        Some(m) => {
                            proof {
                                let w = manifests.spec_index_of(ns_key@);
                                assert(0 <= w < manifests.spec_len() && manifests.pairs@[w].0@
                                    == ns_key@);
                                assert(manifests.spec_vals()[w] == manifests.pairs@[w].1);
                                assert(m.wf());
                            }
                            ok = str_eq(base.as_str(), "default")
                                || m.permissions.contains_key(base.as_str())
                                || m.permission_sets.contains_key(base.as_str());
                        },
                        None => {
                            ok = false;
                        },
                    }
                }
                proof {
                    reveal_strlit("core");
                    reveal_strlit("default");
                    assert(ok == entry_allowed(*manifests, ident@));
                }
                if !ok {
                    let available = enumerate_valid(manifests);
                    return Err(
                        AclError::InvalidCapabilityPermission {
                            identifier: ident.clone(),
                            available,
                        },
                    );
                }
                e = e + 1;
            }
        }
        c = c + 1;
    }
    Ok(())
}

} // verus!
