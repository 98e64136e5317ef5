//! The controller's two reconciling stores.
//!
//! `DeploymentHookCache` mirrors every hook resource, sorted by
//! (namespace, name) so that fanout is deterministic. `DeploymentPodTemplateHashCache`
//! keeps one fingerprint per Deployment and is the sole gate that collapses
//! scale and restart churn into a single Job per new template revision.

use vstd::prelude::*;

use crate::crd::{DeploymentHook, DeploymentHookView};
use crate::model::{Deployment, DeploymentView, ObjectMetaView};
use crate::order::{
    key_lt, lemma_key_lt_irreflexive, lemma_key_lt_transitive, str_cmp, Cmp,
};
use crate::utils::{spec_pod_template_hash, DeploymentExt};

verus! {

/// Whether metadata carries both a namespace and a name.
pub open spec fn has_ns_name(m: ObjectMetaView) -> bool {
    m.namespace is Some && m.name is Some
}

/// The (namespace, name) key of metadata.
pub open spec fn spec_meta_key(m: ObjectMetaView) -> (Seq<char>, Seq<char>) {
    (
        match m.namespace {
            Some(ns) => ns,
            None => Seq::empty(),
        },
        match m.name {
            Some(n) => n,
            None => Seq::empty(),
        },
    )
}

/// The key of a hook.
pub open spec fn spec_hook_key(h: DeploymentHookView) -> (Seq<char>, Seq<char>) {
    spec_meta_key(h.metadata)
}

/// The key of a Deployment.
pub open spec fn spec_deployment_key(d: DeploymentView) -> (Seq<char>, Seq<char>) {
    spec_meta_key(d.metadata)
}

/// Compare two (namespace, name) keys.
fn meta_key_cmp(a_ns: &String, a_name: &String, b_ns: &String, b_name: &String) -> (r: Cmp)
    ensures
        r is Less <==> key_lt((a_ns@, a_name@), (b_ns@, b_name@)),
        r is Equal <==> (a_ns@, a_name@) == (b_ns@, b_name@),
        r is Greater <==> key_lt((b_ns@, b_name@), (a_ns@, a_name@)),
{
    proof {
        crate::order::lemma_lex_lt_irreflexive(a_ns@);
        crate::order::lemma_lex_lt_irreflexive(a_name@);
        if crate::order::lex_lt(a_ns@, b_ns@) && crate::order::lex_lt(b_ns@, a_ns@) {
            crate::order::lemma_lex_lt_transitive(a_ns@, b_ns@, a_ns@);
        }
        if crate::order::lex_lt(a_name@, b_name@) && crate::order::lex_lt(b_name@, a_name@) {
            crate::order::lemma_lex_lt_transitive(a_name@, b_name@, a_name@);
        }
    }
    match str_cmp(a_ns, b_ns) {
        Cmp::Less => Cmp::Less,
        Cmp::Greater => Cmp::Greater,
        Cmp::Equal => match str_cmp(a_name, b_name) {
            Cmp::Less => Cmp::Less,
            Cmp::Greater => Cmp::Greater,
            Cmp::Equal => Cmp::Equal,
        },
    }
}

/// The hook stored under key `k`, if any.
pub open spec fn hook_at(s: Seq<DeploymentHookView>, k: (Seq<char>, Seq<char>)) -> Option<
    DeploymentHookView,
> {
    if exists|i: int| 0 <= i < s.len() && spec_hook_key(#[trigger] s[i]) == k {
        let i = choose|i: int| 0 <= i < s.len() && spec_hook_key(#[trigger] s[i]) == k;
        Some(s[i])
    } else {
        None
    }
}

/// The last hook of a list that carries key `k`, if any: what repeated
/// insertion leaves at `k`.
pub open spec fn last_hook_with_key(s: Seq<DeploymentHookView>, k: (Seq<char>, Seq<char>))
    -> Option<DeploymentHookView>
    decreases s.len(),
{
    if s.len() == 0 {
        None
    } else if spec_hook_key(s.last()) == k {
        Some(s.last())
    } else {
        last_hook_with_key(s.drop_last(), k)
    }
}

/// The hooks of `s` that apply to `d`, in store order.
pub open spec fn matching_hooks(s: Seq<DeploymentHookView>, d: DeploymentView) -> Seq<
    DeploymentHookView,
> {
    s.filter(|h: DeploymentHookView| crate::crd::spec_does_match_deployment(h, d))
}

/// Every hook of the matching list is a hook of the store.
proof fn lemma_matching_hooks_membership(s: Seq<DeploymentHookView>, d: DeploymentView)
    ensures
        forall|i: int|
            0 <= i < matching_hooks(s, d).len() ==> exists|j: int|
                0 <= j < s.len() && #[trigger] matching_hooks(s, d)[i] == s[j],
    decreases s.len(),
{
    reveal_with_fuel(Seq::filter, 2);
    if s.len() == 0 {
    } else {
        let t = s.drop_last();
        lemma_matching_hooks_membership(t, d);
        let m = matching_hooks(s, d);
        let mt = matching_hooks(t, d);
        assert(m == if crate::crd::spec_does_match_deployment(s.last(), d) {
            mt.push(s.last())
        } else {
            mt
        });
        assert forall|i: int| 0 <= i < m.len() implies exists|j: int|
            0 <= j < s.len() && #[trigger] m[i] == s[j] by {
            if i < mt.len() {
                let j = choose|j: int| 0 <= j < t.len() && #[trigger] mt[i] == t[j];
                assert(m[i] == s[j]);
            } else {
                assert(m[i] == s[s.len() - 1]);
            }
        }
    }
}

/// The matching list of a store sorted by key is itself sorted by key:
/// fanout is deterministic and runs in ascending (namespace, name) order.
pub proof fn lemma_matching_hooks_sorted(s: Seq<DeploymentHookView>, d: DeploymentView)
    requires
        forall|a: int, b: int|
            0 <= a < b < s.len() ==> key_lt(
                spec_hook_key(#[trigger] s[a]),
                spec_hook_key(#[trigger] s[b]),
            ),
    ensures
        forall|a: int, b: int|
            0 <= a < b < matching_hooks(s, d).len() ==> key_lt(
                spec_hook_key(#[trigger] matching_hooks(s, d)[a]),
                spec_hook_key(#[trigger] matching_hooks(s, d)[b]),
            ),
    decreases s.len(),
{
    reveal_with_fuel(Seq::filter, 2);
    if s.len() == 0 {
    } else {
        let t = s.drop_last();
        assert forall|a: int, b: int| 0 <= a < b < t.len() implies key_lt(
            spec_hook_key(#[trigger] t[a]),
            spec_hook_key(#[trigger] t[b]),
        ) by {
            assert(key_lt(spec_hook_key(s[a]), spec_hook_key(s[b])));
        }
        lemma_matching_hooks_sorted(t, d);
        lemma_matching_hooks_membership(t, d);
        let m = matching_hooks(s, d);
        let mt = matching_hooks(t, d);
        assert(m == if crate::crd::spec_does_match_deployment(s.last(), d) {
            mt.push(s.last())
        } else {
            mt
        });
        assert forall|a: int, b: int| 0 <= a < b < m.len() implies key_lt(
            spec_hook_key(#[trigger] m[a]),
            spec_hook_key(#[trigger] m[b]),
        ) by {
            if b < mt.len() {
                assert(m[a] == mt[a] && m[b] == mt[b]);
                assert(key_lt(spec_hook_key(mt[a]), spec_hook_key(mt[b])));
            } else {
                // b names the appended last hook of the store
                assert(m[b] == s.last());
                assert(m[a] == mt[a]);
                let j = choose|j: int| 0 <= j < t.len() && #[trigger] mt[a] == t[j];
                assert(t[j] == s[j]);
                assert(key_lt(spec_hook_key(s[j]), spec_hook_key(s[s.len() - 1])));
            }
        }
    }
}

/// In a strictly sorted store, the entry at index `i` is the one its key
/// finds.
proof fn lemma_hook_at_index(s: Seq<DeploymentHookView>, i: int)
    requires
        forall|a: int, b: int|
            0 <= a < b < s.len() ==> key_lt(
                spec_hook_key(#[trigger] s[a]),
                spec_hook_key(#[trigger] s[b]),
            ),
        0 <= i < s.len(),
    ensures
        hook_at(s, spec_hook_key(s[i])) == Some(s[i]),
{
    assert(spec_hook_key(s[i]) == spec_hook_key(s[i]));
    let k = spec_hook_key(s[i]);
    assert(exists|j: int| 0 <= j < s.len() && spec_hook_key(#[trigger] s[j]) == k);
    let j = choose|j: int| 0 <= j < s.len() && spec_hook_key(#[trigger] s[j]) == k;
    if i != j {
        lemma_key_lt_irreflexive(k);
        if i < j {
            assert(key_lt(spec_hook_key(s[i]), spec_hook_key(s[j])));
        } else {
            assert(key_lt(spec_hook_key(s[j]), spec_hook_key(s[i])));
        }
    }
}

/// A coherent mirror of all hook resources, keyed and sorted by
/// (namespace, name).
#[derive(Debug, PartialEq, Eq)]
pub struct DeploymentHookCache {
    hooks: Vec<DeploymentHook>,
}

impl View for DeploymentHookCache {
    type V = Seq<DeploymentHookView>;

    closed spec fn view(&self) -> Seq<DeploymentHookView> {
        self.hooks@.map_values(|h: DeploymentHook| h@)
    }
}

impl DeploymentHookCache {
    /// Every stored hook is well formed with a namespace and a name, and the
    /// store is strictly sorted by key.
    pub open spec fn wf(&self) -> bool {
        &&& forall|i: int|
            0 <= i < self@.len() ==> (#[trigger] self@[i]).wf() && has_ns_name(self@[i].metadata)
        &&& forall|a: int, b: int|
            0 <= a < b < self@.len() ==> key_lt(
                spec_hook_key(#[trigger] self@[a]),
                spec_hook_key(#[trigger] self@[b]),
            )
    }

    /// An empty store.
    pub fn new() -> (r: DeploymentHookCache)
        ensures
            r@ == Seq::<DeploymentHookView>::empty(),
            r.wf(),
    {
        let r = DeploymentHookCache { hooks: Vec::new() };
        proof {
            assert(r@ =~= Seq::<DeploymentHookView>::empty());
        }
        r
    }

    /// How many hooks the store holds.
    pub fn len(&self) -> (n: usize)
        ensures
            n == self@.len(),
    {
        self.hooks.len()
    }

    /// Where a hook with key (`ns`, `name`) stands or would be inserted:
    /// the first position not before the key, and whether the key is already
    /// stored there.
    fn find_position(&self, ns: &String, name: &String) -> (r: (usize, bool))
        requires
            self.wf(),
        ensures
            r.0 <= self@.len(),
            forall|j: int| 0 <= j < r.0 ==> key_lt(spec_hook_key(#[trigger] self@[j]), (ns@, name@)),
            r.1 ==> r.0 < self@.len() && spec_hook_key(self@[r.0 as int]) == (ns@, name@),
            !r.1 && r.0 < self@.len() ==> key_lt((ns@, name@), spec_hook_key(self@[r.0 as int])),
    {
        let n = self.hooks.len();
        let mut i: usize = 0;
        loop
            invariant
                n == self@.len(),
                0 <= i <= n,
                self.wf(),
                forall|j: int| 0 <= j < i ==> key_lt(spec_hook_key(#[trigger] self@[j]), (ns@, name@)),
            decreases n - i,
        {
            if i >= n {
                return (i, false);
            }
            proof {
                assert(self@[i as int] == self.hooks@[i as int]@);
                assert(self@[i as int].wf() && has_ns_name(self@[i as int].metadata));
            }
            let e_ns = match &self.hooks[i].metadata.namespace {
                Some(s) => s,
                None => unreached(),
            };
            let e_name = match &self.hooks[i].metadata.name {
                Some(s) => s,
                None => unreached(),
            };
            proof {
                assert(spec_hook_key(self@[i as int]) == (e_ns@, e_name@));
            }
            match meta_key_cmp(e_ns, e_name, ns, name) {
                Cmp::Less => {
                    i = i + 1;
                },
                Cmp::Equal => {
                    return (i, true);
                },
                Cmp::Greater => {
                    return (i, false);
                },
            }
        }
    }

    /// Put one hook in its place, replacing the hook with its key if one is
    /// stored.
    #[verifier::rlimit(50)]
    fn insert_hook(&mut self, hook: DeploymentHook)
        requires
            old(self).wf(),
            hook@.wf(),
            has_ns_name(hook@.metadata),
        ensures
            final(self).wf(),
            hook_at(final(self)@, spec_hook_key(hook@)) == Some(hook@),
            forall|k: (Seq<char>, Seq<char>)|
                k != spec_hook_key(hook@) ==> hook_at(final(self)@, k) == hook_at(old(self)@, k),
    {
        let ghost s0 = self@;
        let ghost kn = spec_hook_key(hook@);
        let hook_ns = match &hook.metadata.namespace {
            Some(s) => s,
            None => unreached(),
        };
        let hook_name = match &hook.metadata.name {
            Some(s) => s,
            None => unreached(),
        };
        proof {
            assert(kn == (hook_ns@, hook_name@));
        }
        let (i, equal_here) = self.find_position(hook_ns, hook_name);
        if equal_here {
            // Same key: replace in place; the order is untouched.
            self.hooks.set(i, hook);
            proof {
                let s1 = self@;
                assert(s1 =~= s0.update(i as int, hook@));
                assert(spec_hook_key(s0[i as int]) == kn);
                assert forall|a: int, b: int| 0 <= a < b < s1.len() implies key_lt(
                    spec_hook_key(#[trigger] s1[a]),
                    spec_hook_key(#[trigger] s1[b]),
                ) by {
                    assert(key_lt(spec_hook_key(s0[a]), spec_hook_key(s0[b])));
                    if a == i {
                        assert(spec_hook_key(s1[a]) == spec_hook_key(s0[a]));
                    }
                    if b == i {
                        assert(spec_hook_key(s1[b]) == spec_hook_key(s0[b]));
                    }
                }
                lemma_hook_at_index(s1, i as int);
                assert forall|k: (Seq<char>, Seq<char>)| k != kn implies hook_at(s1, k) == hook_at(
                    s0,
                    k,
                ) by {
                    Self::lemma_hook_at_same_keys(s0, s1, kn, k);
                }
            }
        } else if i < self.hooks.len() {
            // The store's hook here comes after the new one: insert before it.
            self.hooks.insert(i, hook);
            proof {
                let s1 = self@;
                assert(s1 =~= s0.insert(i as int, hook@));
                assert(key_lt(kn, spec_hook_key(s0[i as int])));
                assert forall|a: int, b: int| 0 <= a < b < s1.len() implies key_lt(
                    spec_hook_key(#[trigger] s1[a]),
                    spec_hook_key(#[trigger] s1[b]),
                ) by {
                    if a == i {
                        // the new hook against a stored one after it
                        assert(s1[b] == s0[b - 1]);
                        if b - 1 == i {
                            assert(key_lt(kn, spec_hook_key(s0[i as int])));
                        } else {
                            assert(key_lt(spec_hook_key(s0[i as int]), spec_hook_key(s0[b - 1])));
                            lemma_key_lt_transitive(
                                kn,
                                spec_hook_key(s0[i as int]),
                                spec_hook_key(s0[b - 1]),
                            );
                        }
                    } else if b == i {
                        // a stored hook before the insertion point
                        assert(s1[a] == s0[a]);
                        assert(key_lt(spec_hook_key(s0[a]), kn));
                    } else if a < i && b > i {
                        assert(s1[a] == s0[a]);
                        assert(s1[b] == s0[b - 1]);
                        if b - 1 == i {
                            assert(key_lt(spec_hook_key(s0[a]), kn));
                            assert(key_lt(kn, spec_hook_key(s0[i as int])));
                            lemma_key_lt_transitive(
                                spec_hook_key(s0[a]),
                                kn,
                                spec_hook_key(s0[i as int]),
                            );
                        } else {
                            assert(key_lt(spec_hook_key(s0[a]), spec_hook_key(s0[b - 1])));
                        }
                    } else if b < i {
                        assert(s1[a] == s0[a]);
                        assert(s1[b] == s0[b]);
                        assert(key_lt(spec_hook_key(s0[a]), spec_hook_key(s0[b])));
                    } else {
                        assert(a > i);
                        assert(s1[a] == s0[a - 1]);
                        assert(s1[b] == s0[b - 1]);
                        assert(key_lt(spec_hook_key(s0[a - 1]), spec_hook_key(s0[b - 1])));
                    }
                }
                assert forall|j: int| 0 <= j < s1.len() implies (#[trigger] s1[j]).wf()
                    && has_ns_name(s1[j].metadata) by {
                    if j < i {
                        assert(s1[j] == s0[j]);
                        assert(s0[j].wf() && has_ns_name(s0[j].metadata));
                    } else if j > i {
                        assert(s1[j] == s0[j - 1]);
                        assert(s0[j - 1].wf() && has_ns_name(s0[j - 1].metadata));
                    }
                }
                lemma_hook_at_index(s1, i as int);
                assert forall|k: (Seq<char>, Seq<char>)| k != kn implies hook_at(s1, k) == hook_at(
                    s0,
                    k,
                ) by {
                    if hook_at(s0, k) is Some {
                        let j = choose|j: int|
                            0 <= j < s0.len() && spec_hook_key(#[trigger] s0[j]) == k;
                        let j1: int = if j < i {
                            j
                        } else {
                            j + 1
                        };
                        assert(s1[j1] == s0[j]);
                        lemma_hook_at_index(s0, j);
                        lemma_hook_at_index(s1, j1);
                    } else {
                        assert(hook_at(s1, k) is None) by {
                            if hook_at(s1, k) is Some {
                                let j = choose|j: int|
                                    0 <= j < s1.len() && spec_hook_key(#[trigger] s1[j]) == k;
                                let j0: int = if j < i {
                                    j
                                } else {
                                    j - 1
                                };
                                assert(j != i);
                                assert(s1[j] == s0[j0]);
                                assert(spec_hook_key(s0[j0]) == k);
                            }
                        }
                    }
                }
            }
        } else {
            // Every stored key comes first: the new hook goes at the end.
            self.hooks.push(hook);
            proof {
                let s1 = self@;
                assert(s1 =~= s0.push(hook@));
                assert forall|a: int, b: int| 0 <= a < b < s1.len() implies key_lt(
                    spec_hook_key(#[trigger] s1[a]),
                    spec_hook_key(#[trigger] s1[b]),
                ) by {
                    assert(s1[a] == s0[a]);
                    if b < s0.len() {
                        assert(s1[b] == s0[b]);
                        assert(key_lt(spec_hook_key(s0[a]), spec_hook_key(s0[b])));
                    } else {
                        assert(key_lt(spec_hook_key(s0[a]), kn));
                    }
                }
                assert forall|j: int| 0 <= j < s1.len() implies (#[trigger] s1[j]).wf()
                    && has_ns_name(s1[j].metadata) by {
                    if j < s0.len() {
                        assert(s1[j] == s0[j]);
                        assert(s0[j].wf() && has_ns_name(s0[j].metadata));
                    }
                }
                lemma_hook_at_index(s1, s0.len() as int);
                assert forall|k: (Seq<char>, Seq<char>)| k != kn implies hook_at(s1, k) == hook_at(
                    s0,
                    k,
                ) by {
                    if hook_at(s0, k) is Some {
                        let j = choose|j: int|
                            0 <= j < s0.len() && spec_hook_key(#[trigger] s0[j]) == k;
                        assert(s1[j] == s0[j]);
                        lemma_hook_at_index(s0, j);
                        lemma_hook_at_index(s1, j);
                    } else {
                        assert(hook_at(s1, k) is None) by {
                            if hook_at(s1, k) is Some {
                                let j = choose|j: int|
                                    0 <= j < s1.len() && spec_hook_key(#[trigger] s1[j]) == k;
                                assert(j < s0.len());
                                assert(spec_hook_key(s0[j]) == k);
                            }
                        }
                    }
                }
            }
        }
    }

    /// Two stores whose entries coincide except at key `kn` agree at every
    /// other key.
    proof fn lemma_hook_at_same_keys(
        s0: Seq<DeploymentHookView>,
        s1: Seq<DeploymentHookView>,
        kn: (Seq<char>, Seq<char>),
        k: (Seq<char>, Seq<char>),
    )
        requires
            s0.len() == s1.len(),
            forall|j: int|
                0 <= j < s0.len() ==> spec_hook_key(#[trigger] s0[j]) == spec_hook_key(
                    #[trigger] s1[j],
                ),
            forall|j: int|
                0 <= j < s0.len() && spec_hook_key(#[trigger] s0[j]) != kn ==> s0[j] == s1[j],
            forall|a: int, b: int|
                0 <= a < b < s0.len() ==> key_lt(
                    spec_hook_key(#[trigger] s0[a]),
                    spec_hook_key(#[trigger] s0[b]),
                ),
            k != kn,
        ensures
            hook_at(s0, k) == hook_at(s1, k),
    {
        assert forall|a: int, b: int| 0 <= a < b < s1.len() implies key_lt(
            spec_hook_key(#[trigger] s1[a]),
            spec_hook_key(#[trigger] s1[b]),
        ) by {
            assert(key_lt(spec_hook_key(s0[a]), spec_hook_key(s0[b])));
        }
        if hook_at(s0, k) is Some {
            let j = choose|j: int| 0 <= j < s0.len() && spec_hook_key(#[trigger] s0[j]) == k;
            assert(s0[j] == s1[j]);
            lemma_hook_at_index(s0, j);
            lemma_hook_at_index(s1, j);
        } else {
            assert(hook_at(s1, k) is None) by {
                if hook_at(s1, k) is Some {
                    let j = choose|j: int|
                        0 <= j < s1.len() && spec_hook_key(#[trigger] s1[j]) == k;
                    assert(spec_hook_key(s0[j]) == k);
                }
            }
        }
    }

    /// Replace the whole store with the given hooks, the last hook with each
    /// key winning, as a full list from the cluster would be folded in.
    pub fn refresh(&mut self, hooks: Vec<DeploymentHook>)
        requires
            old(self).wf(),
            forall|i: int|
                0 <= i < hooks@.len() ==> (#[trigger] hooks@[i])@.wf() && has_ns_name(
                    hooks@[i]@.metadata,
                ),
        ensures
            final(self).wf(),
            forall|k: (Seq<char>, Seq<char>)| #[trigger]
                hook_at(final(self)@, k) == last_hook_with_key(
                    hooks@.map_values(|h: DeploymentHook| h@),
                    k,
                ),
    {
        let ghost hv = hooks@.map_values(|h: DeploymentHook| h@);
        self.hooks = Vec::new();
        proof {
            assert(self@ =~= Seq::<DeploymentHookView>::empty());
            assert forall|k: (Seq<char>, Seq<char>)| #[trigger]
                hook_at(self@, k) == last_hook_with_key(hv.take(0), k) by {
                assert(hv.take(0) =~= Seq::<DeploymentHookView>::empty());
                assert(!(exists|i: int|
                    0 <= i < self@.len() && spec_hook_key(#[trigger] self@[i]) == k));
            }
        }
        let n = hooks.len();
        let mut i: usize = 0;
        while i < n
            invariant
                n == hooks@.len(),
                0 <= i <= n,
                hv == hooks@.map_values(|h: DeploymentHook| h@),
                forall|j: int|
                    0 <= j < hooks@.len() ==> (#[trigger] hooks@[j])@.wf() && has_ns_name(
                        hooks@[j]@.metadata,
                    ),
                self.wf(),
                forall|k: (Seq<char>, Seq<char>)| #[trigger]
                    hook_at(self@, k) == last_hook_with_key(hv.take(i as int), k),
            decreases n - i,
        {
            let hook = hooks[i].clone();
            proof {
                assert(hook@ == hooks@[i as int]@);
                assert(hv[i as int] == hooks@[i as int]@);
            }
            self.insert_hook(hook);
            proof {
                let t = hv.take(i + 1 as int);
                assert(t.drop_last() =~= hv.take(i as int));
                assert(t.last() == hv[i as int]);
                assert forall|k: (Seq<char>, Seq<char>)| #[trigger]
                    hook_at(self@, k) == last_hook_with_key(t, k) by {
                    if k == spec_hook_key(hv[i as int]) {
                        assert(last_hook_with_key(t, k) == Some(hv[i as int]));
                    } else {
                        assert(last_hook_with_key(t, k) == last_hook_with_key(
                            hv.take(i as int),
                            k,
                        ));
                    }
                }
            }
            i = i + 1;
        }
        proof {
            assert(hv.take(n as int) =~= hv);
        }
    }

    /// Every stored hook whose selector the Deployment's labels satisfy, in
    /// ascending (namespace, name) order.
    pub fn find_by_matching_deployment(&self, deployment: &Deployment) -> (r: Vec<DeploymentHook>)
        requires
            self.wf(),
            deployment@.metadata.wf(),
        ensures
            r@.map_values(|h: DeploymentHook| h@) == matching_hooks(self@, deployment@),
    {
        let mut out: Vec<DeploymentHook> = Vec::new();
        proof {
            assert(out@.map_values(|h: DeploymentHook| h@) =~= Seq::<DeploymentHookView>::empty());
            assert(self@.take(0) =~= Seq::<DeploymentHookView>::empty());
            assert(matching_hooks(self@.take(0), deployment@) =~= Seq::<
                DeploymentHookView,
            >::empty());
        }
        let n = self.hooks.len();
        let mut i: usize = 0;
        while i < n
            invariant
                n == self@.len(),
                0 <= i <= n,
                self.wf(),
                deployment@.metadata.wf(),
                out@.map_values(|h: DeploymentHook| h@) =~= matching_hooks(
                    self@.take(i as int),
                    deployment@,
                ),
            decreases n - i,
        {
            proof {
                assert(self@[i as int] == self.hooks@[i as int]@);
                assert(self@[i as int].wf());
            }
            let ghost prev = out@.map_values(|h: DeploymentHook| h@);
            let matched = self.hooks[i].does_match_deployment(deployment);
            if matched {
                out.push(self.hooks[i].clone());
            }
            proof {
                reveal_with_fuel(Seq::filter, 2);
                let t = self@.take(i + 1 as int);
                assert(t.drop_last() =~= self@.take(i as int));
                assert(t.last() == self@[i as int]);
                assert(matching_hooks(t, deployment@) == if crate::crd::spec_does_match_deployment(
                    self@[i as int],
                    deployment@,
                ) {
                    matching_hooks(self@.take(i as int), deployment@).push(self@[i as int])
                } else {
                    matching_hooks(self@.take(i as int), deployment@)
                });
                if matched {
                    assert(out@.map_values(|h: DeploymentHook| h@) =~= prev.push(
                        self@[i as int],
                    ));
                }
                assert(out@.map_values(|h: DeploymentHook| h@) =~= matching_hooks(
                    t,
                    deployment@,
                ));
            }
            i = i + 1;
        }
        proof {
            assert(self@.take(n as int) =~= self@);
        }
        out
    }
}

impl Default for DeploymentHookCache {
    /// An empty store.
    fn default() -> (r: DeploymentHookCache)
        ensures
            r@ == Seq::<DeploymentHookView>::empty(),
            r.wf(),
    {
        DeploymentHookCache::new()
    }
}

/// Whether an observation changed what the store remembers.
pub enum CacheOp {
    Changed,
    Unchanged,
}

/// One remembered fingerprint.
#[derive(Debug, PartialEq, Eq)]
struct HashEntry {
    namespace: String,
    name: String,
    hash: String,
}

/// The fingerprint entries, each key with its fingerprint.
pub type HashEntries = Seq<((Seq<char>, Seq<char>), Seq<char>)>;

/// No two entries share a key.
pub open spec fn hash_unique(s: HashEntries) -> bool {
    forall|i: int, j: int| 0 <= i < j < s.len() ==> (#[trigger] s[i]).0 != (#[trigger] s[j]).0
}

/// The fingerprint stored under key `k`, if any.
pub open spec fn hash_at(s: HashEntries, k: (Seq<char>, Seq<char>)) -> Option<Seq<char>> {
    if exists|i: int| 0 <= i < s.len() && (#[trigger] s[i]).0 == k {
        let i = choose|i: int| 0 <= i < s.len() && (#[trigger] s[i]).0 == k;
        Some(s[i].1)
    } else {
        None
    }
}

/// With unique keys, the entry at index `i` fixes the fingerprint at its
/// key.
proof fn lemma_hash_at_index(s: HashEntries, i: int)
    requires
        hash_unique(s),
        0 <= i < s.len(),
    ensures
        hash_at(s, s[i].0) == Some(s[i].1),
{
    assert(exists|j: int| 0 <= j < s.len() && (#[trigger] s[j]).0 == s[i].0);
    let j = choose|j: int| 0 <= j < s.len() && (#[trigger] s[j]).0 == s[i].0;
    assert(j == i);
}

/// The fingerprint the last Deployment of a list with key `k` and a pod
/// specification would leave, if any such Deployment is listed.
pub open spec fn last_hash_of(ds: Seq<DeploymentView>, k: (Seq<char>, Seq<char>)) -> Option<
    Seq<char>,
>
    decreases ds.len(),
{
    if ds.len() == 0 {
        None
    } else if spec_deployment_key(ds.last()) == k && spec_pod_template_hash(ds.last()) is Some {
        spec_pod_template_hash(ds.last())
    } else {
        last_hash_of(ds.drop_last(), k)
    }
}

/// Remembers one fingerprint for each Deployment key, so that scale events
/// and restarts, whose pod template is unchanged, can be dropped.
#[derive(Debug, PartialEq, Eq)]
pub struct DeploymentPodTemplateHashCache {
    entries: Vec<HashEntry>,
}

impl View for DeploymentPodTemplateHashCache {
    type V = HashEntries;

    closed spec fn view(&self) -> HashEntries {
        self.entries@.map_values(|e: HashEntry| ((e.namespace@, e.name@), e.hash@))
    }
}

impl DeploymentPodTemplateHashCache {
    /// Keys are unique.
    pub open spec fn wf(&self) -> bool {
        hash_unique(self@)
    }

    /// An empty store.
    pub fn new() -> (r: DeploymentPodTemplateHashCache)
        ensures
            r@ == Seq::<((Seq<char>, Seq<char>), Seq<char>)>::empty(),
            r.wf(),
    {
        let r = DeploymentPodTemplateHashCache { entries: Vec::new() };
        proof {
            assert(r@ =~= Seq::<((Seq<char>, Seq<char>), Seq<char>)>::empty());
        }
        r
    }

    /// How many fingerprints the store holds.
    pub fn len(&self) -> (n: usize)
        ensures
            n == self@.len(),
    {
        self.entries.len()
    }

    /// Observe one Deployment: remember its fingerprint and report whether
    /// anything new was seen. `Unchanged` comes back exactly when the key was
    /// already stored with the same fingerprint; a Deployment without a pod
    /// specification is conservatively `Changed` and leaves the store as it
    /// was.
    pub fn update_cache(&mut self, deployment: &Deployment) -> (r: CacheOp)
        requires
            old(self).wf(),
            has_ns_name(deployment@.metadata),
        ensures
            final(self).wf(),
            match spec_pod_template_hash(deployment@) {
                Some(h) => {
                    &&& hash_at(final(self)@, spec_deployment_key(deployment@)) == Some(h)
                    &&& forall|k: (Seq<char>, Seq<char>)|
                        k != spec_deployment_key(deployment@) ==> hash_at(final(self)@, k)
                            == hash_at(old(self)@, k)
                    &&& (r is Unchanged <==> hash_at(old(self)@, spec_deployment_key(deployment@))
                        == Some(h))
                },
                None => final(self)@ == old(self)@ && r is Changed,
            },
    {
        let ghost s0 = self@;
        let ghost kd = spec_deployment_key(deployment@);
        let hash_opt = deployment.pod_template_hash();
        let hash = match hash_opt {
            Some(h) => h,
            None => {
                return CacheOp::Changed;
            },
        };
        let d_ns = match &deployment.metadata.namespace {
            Some(s) => s,
            None => unreached(),
        };
        let d_name = match &deployment.metadata.name {
            Some(s) => s,
            None => unreached(),
        };
        let n = self.entries.len();
        let mut i: usize = 0;
        while i < n
            invariant
                n == self@.len(),
                0 <= i <= n,
                self@ == s0,
                s0 == old(self)@,
                self.wf(),
                kd == (d_ns@, d_name@),
                kd == spec_deployment_key(deployment@),
                spec_pod_template_hash(deployment@) == Some(hash@),
                forall|j: int| 0 <= j < i ==> (#[trigger] self@[j]).0 != kd,
            decreases n - i,
        {
            proof {
                assert(self@[i as int] == (
                    (self.entries@[i as int].namespace@, self.entries@[i as int].name@),
                    self.entries@[i as int].hash@,
                ));
            }
            if self.entries[i].namespace == *d_ns && self.entries[i].name == *d_name {
                let ghost hv = hash@;
                let unchanged = self.entries[i].hash == hash;
                let entry = HashEntry {
                    namespace: d_ns.clone(),
                    name: d_name.clone(),
                    hash: hash,
                };
                proof {
                    lemma_hash_at_index(s0, i as int);
                }
                self.entries.set(i, entry);
                proof {
                    let s1 = self@;
                    assert(spec_pod_template_hash(deployment@) == Some(hv));
                    assert(s1 =~= s0.update(i as int, (kd, hv)));
                    assert forall|a: int, b: int| 0 <= a < b < s1.len() implies (
                    #[trigger] s1[a]).0 != (#[trigger] s1[b]).0 by {
                        assert(s0[a].0 != s0[b].0);
                    }
                    lemma_hash_at_index(s1, i as int);
                    assert forall|k: (Seq<char>, Seq<char>)| k != kd implies hash_at(s1, k)
                        == hash_at(s0, k) by {
                        Self::lemma_hash_at_same_keys(s0, s1, kd, k);
                    }
                }
                if unchanged {
                    return CacheOp::Unchanged;
                } else {
                    return CacheOp::Changed;
                }
            }
            i = i + 1;
        }
        proof {
            assert(!(exists|j: int| 0 <= j < s0.len() && (#[trigger] s0[j]).0 == kd));
        }
        let ghost hv = hash@;
        let entry = HashEntry { namespace: d_ns.clone(), name: d_name.clone(), hash: hash };
        self.entries.push(entry);
        proof {
            let s1 = self@;
            assert(spec_pod_template_hash(deployment@) == Some(hv));
            assert(s1 =~= s0.push((kd, hv)));
            assert forall|a: int, b: int| 0 <= a < b < s1.len() implies (#[trigger] s1[a]).0 != (
            #[trigger] s1[b]).0 by {
                if b < s0.len() {
                    assert(s0[a].0 != s0[b].0);
                } else {
                    assert(s1[a] == s0[a]);
                }
            }
            lemma_hash_at_index(s1, s0.len() as int);
            assert forall|k: (Seq<char>, Seq<char>)| k != kd implies hash_at(s1, k) == hash_at(
                s0,
                k,
            ) by {
                if hash_at(s0, k) is Some {
                    let j = choose|j: int| 0 <= j < s0.len() && (#[trigger] s0[j]).0 == k;
                    lemma_hash_at_index(s0, j);
                    assert(s1[j] == s0[j]);
                    lemma_hash_at_index(s1, j);
                } else {
                    assert(hash_at(s1, k) is None) by {
                        if hash_at(s1, k) is Some {
                            let j = choose|j: int|
                                0 <= j < s1.len() && (#[trigger] s1[j]).0 == k;
                            assert(j < s0.len());
                            assert(s0[j].0 == k);
                        }
                    }
                }
            }
        }
        CacheOp::Changed
    }

    /// Two stores whose entries coincide except at key `kn` agree at every
    /// other key.
    proof fn lemma_hash_at_same_keys(
        s0: HashEntries,
        s1: HashEntries,
        kn: (Seq<char>, Seq<char>),
        k: (Seq<char>, Seq<char>),
    )
        requires
            hash_unique(s0),
            hash_unique(s1),
            s0.len() == s1.len(),
            forall|j: int| 0 <= j < s0.len() ==> (#[trigger] s0[j]).0 == (#[trigger] s1[j]).0,
            forall|j: int| 0 <= j < s0.len() && (#[trigger] s0[j]).0 != kn ==> s0[j] == s1[j],
            k != kn,
        ensures
            hash_at(s0, k) == hash_at(s1, k),
    {
        if hash_at(s0, k) is Some {
            let j = choose|j: int| 0 <= j < s0.len() && (#[trigger] s0[j]).0 == k;
            assert(s0[j] == s1[j]);
            lemma_hash_at_index(s0, j);
            lemma_hash_at_index(s1, j);
        } else {
            assert(hash_at(s1, k) is None) by {
                if hash_at(s1, k) is Some {
                    let j = choose|j: int| 0 <= j < s1.len() && (#[trigger] s1[j]).0 == k;
                    assert(s0[j].0 == k);
                }
            }
        }
    }

    /// Fold a full list of Deployments into the store, in order, without
    /// emitting change signals. This primes the store so that Deployments
    /// already rolled out do not fan out on startup.
    pub fn refresh(&mut self, deployments: &Vec<Deployment>)
        requires
            old(self).wf(),
            forall|i: int|
                0 <= i < deployments@.len() ==> has_ns_name((#[trigger] deployments@[i])@.metadata),
        ensures
            final(self).wf(),
            forall|k: (Seq<char>, Seq<char>)| #[trigger]
                hash_at(final(self)@, k) == match last_hash_of(
                    deployments@.map_values(|d: Deployment| d@),
                    k,
                ) {
                    Some(h) => Some(h),
                    None => hash_at(old(self)@, k),
                },
    {
        let ghost dv = deployments@.map_values(|d: Deployment| d@);
        proof {
            assert forall|k: (Seq<char>, Seq<char>)| #[trigger]
                hash_at(self@, k) == match last_hash_of(dv.take(0), k) {
                    Some(h) => Some(h),
                    None => hash_at(old(self)@, k),
                } by {
                assert(dv.take(0) =~= Seq::<DeploymentView>::empty());
            }
        }
        let n = deployments.len();
        let mut i: usize = 0;
        while i < n
            invariant
                n == deployments@.len(),
                0 <= i <= n,
                dv == deployments@.map_values(|d: Deployment| d@),
                forall|j: int|
                    0 <= j < deployments@.len() ==> has_ns_name(
                        (#[trigger] deployments@[j])@.metadata,
                    ),
                self.wf(),
                forall|k: (Seq<char>, Seq<char>)| #[trigger]
                    hash_at(self@, k) == match last_hash_of(dv.take(i as int), k) {
                        Some(h) => Some(h),
                        None => hash_at(old(self)@, k),
                    },
            decreases n - i,
        {
            let ghost before = self@;
            proof {
                assert(dv[i as int] == deployments@[i as int]@);
            }
            self.update_cache(&deployments[i]);
            proof {
                let t = dv.take(i + 1 as int);
                assert(t.drop_last() =~= dv.take(i as int));
                assert(t.last() == dv[i as int]);
                assert forall|k: (Seq<char>, Seq<char>)| #[trigger]
                    hash_at(self@, k) == match last_hash_of(t, k) {
                        Some(h) => Some(h),
                        None => hash_at(old(self)@, k),
                    } by {
                    let dvi = dv[i as int];
                    match spec_pod_template_hash(dvi) {
                        Some(h) => {
                            if k == spec_deployment_key(dvi) {
                                assert(last_hash_of(t, k) == Some(h));
                            } else {
                                assert(last_hash_of(t, k) == last_hash_of(dv.take(i as int), k));
                            }
                        },
                        None => {
                            assert(self@ == before);
                            assert(last_hash_of(t, k) == last_hash_of(dv.take(i as int), k));
                        },
                    }
                }
            }
            i = i + 1;
        }
        proof {
            assert(dv.take(n as int) =~= dv);
        }
    }
}

impl Default for DeploymentPodTemplateHashCache {
    /// An empty store.
    fn default() -> (r: DeploymentPodTemplateHashCache)
        ensures
            r@ == Seq::<((Seq<char>, Seq<char>), Seq<char>)>::empty(),
            r.wf(),
    {
        DeploymentPodTemplateHashCache::new()
    }
}

} // verus!
