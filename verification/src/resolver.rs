//! The pod-template resolver: a bounded least-recently-used cache of
//! cluster PodTemplates, warmed by the watcher and read at fanout time.
//!
//! The cache itself comes from the lru crate and is trusted through the
//! contracts below; everything around it is verified.

use vstd::prelude::*;

use crate::model::{PodTemplate, PodTemplateView};
use lru::LruCache;
use std::collections::hash_map::RandomState;
use std::num::NonZeroUsize;

verus! {

/// The cache instantiation the resolver uses: keys are (namespace, name),
/// values are templates, hashed with std's default hasher.
pub type TemplateLru = LruCache<(String, String), PodTemplate, RandomState>;

#[verifier::external_type_specification]
#[verifier::external_body]
#[verifier::reject_recursive_types(K)]
#[verifier::reject_recursive_types(V)]
#[verifier::reject_recursive_types(S)]
pub struct ExLruCache<K, V, S>(LruCache<K, V, S>);

/// What the cache holds: each stored (namespace, name) key with its
/// template.
pub uninterp spec fn lru_contents(c: TemplateLru) -> Map<(Seq<char>, Seq<char>), PodTemplateView>;

/// The bound the cache was created with.
pub uninterp spec fn lru_capacity(c: TemplateLru) -> nat;

/// A cache map with nothing in it.
pub open spec fn empty_contents() -> Map<(Seq<char>, Seq<char>), PodTemplateView> {
    Map::empty()
}

/// Relies on lru::LruCache::with_hasher: a fresh cache holds nothing and
/// keeps at most `cap` entries.
#[verifier::external_body]
fn lru_new(cap: usize) -> (c: TemplateLru)
    requires
        cap >= 1,
    ensures
        lru_contents(c) == empty_contents(),
        lru_contents(c).dom().finite(),
        lru_capacity(c) == cap,
{
    LruCache::with_hasher(NonZeroUsize::new(cap).unwrap(), RandomState::new())
}

/// Relies on lru::LruCache::get: returns the entry stored at the key, if
/// any, and only refreshes its recency — the contents do not change.
#[verifier::external_body]
fn lru_get(c: &mut TemplateLru, namespace: &String, name: &String)
    -> (r: Option<PodTemplate>)
    ensures
        lru_contents(*final(c)) == lru_contents(*old(c)),
        lru_capacity(*final(c)) == lru_capacity(*old(c)),
        match r {
            Some(t) => lru_contents(*old(c)).dom().contains((namespace@, name@))
                && lru_contents(*old(c))[(namespace@, name@)] == t@,
            None => !lru_contents(*old(c)).dom().contains((namespace@, name@)),
        },
{
    c.get(&(namespace.clone(), name.clone())).cloned()
}

/// Relies on lru::LruCache::push: stores the entry at the key; when the key
/// is new and the cache is full, the least-recently-used entry leaves, and
/// nothing else changes.
#[verifier::external_body]
fn lru_push(c: &mut TemplateLru, namespace: String, name: String, value: PodTemplate)
    ensures
        lru_capacity(*final(c)) == lru_capacity(*old(c)),
        lru_contents(*old(c)).dom().finite() ==> lru_contents(*final(c)).dom().finite(),
        lru_contents(*old(c)).dom().contains((namespace@, name@)) || lru_contents(
            *old(c),
        ).dom().len() < lru_capacity(*old(c)) ==> lru_contents(*final(c)) == lru_contents(
            *old(c),
        ).insert((namespace@, name@), value@),
        !(lru_contents(*old(c)).dom().contains((namespace@, name@)) || lru_contents(
            *old(c),
        ).dom().len() < lru_capacity(*old(c))) ==> exists|victim|
            lru_contents(*old(c)).dom().contains(victim) && victim != (namespace@, name@)
                && lru_contents(*final(c)) == lru_contents(*old(c)).remove(victim).insert(
                (namespace@, name@),
                value@,
            ),
{
    c.push((namespace, name), value);
}

/// How many templates the resolver keeps at most.
pub open spec fn resolver_capacity() -> nat {
    1024
}

/// The key a pod template is cached under: its own namespace, with
/// `default` for a missing one, and its own name.
pub open spec fn spec_template_key(t: PodTemplateView) -> (Seq<char>, Seq<char>) {
    (
        match t.metadata.namespace {
            Some(ns) => ns,
            None => "default"@,
        },
        match t.metadata.name {
            Some(n) => n,
            None => Seq::empty(),
        },
    )
}

/// The template cache, bounded at `resolver_capacity` entries.
pub struct PodTemplateService {
    cache: TemplateLru,
}

impl PodTemplateService {
    /// What the service has cached.
    pub closed spec fn contents(&self) -> Map<(Seq<char>, Seq<char>), PodTemplateView> {
        lru_contents(self.cache)
    }

    /// The service keeps its stated bound, and holds finitely many entries.
    pub closed spec fn wf(&self) -> bool {
        &&& lru_capacity(self.cache) == resolver_capacity()
        &&& lru_contents(self.cache).dom().finite()
    }

    /// An empty service.
    pub fn new() -> (r: PodTemplateService)
        ensures
            r.contents() == empty_contents(),
            r.wf(),
    {
        PodTemplateService { cache: lru_new(1024) }
    }

    /// The cached template at (`namespace`, `name`), if one is stored; the
    /// cache contents are unchanged.
    pub fn get_cached(&mut self, namespace: &String, name: &String) -> (r: Option<PodTemplate>)
        ensures
            final(self).contents() == old(self).contents(),
            final(self).wf() == old(self).wf(),
            match r {
                Some(t) => old(self).contents().dom().contains((namespace@, name@))
                    && old(self).contents()[(namespace@, name@)] == t@,
                None => !old(self).contents().dom().contains((namespace@, name@)),
            },
    {
        lru_get(&mut self.cache, namespace, name)
    }

    /// Cache a template under its own key. A template without a name is not
    /// cached. When the cache is full and the key is new, the
    /// least-recently-used entry makes room.
    pub fn push(&mut self, pod_template: PodTemplate)
        requires
            old(self).wf(),
        ensures
            final(self).wf(),
            pod_template@.metadata.name is None ==> final(self).contents() == old(self).contents(),
            pod_template@.metadata.name is Some ==> {
                let key = spec_template_key(pod_template@);
                let before = old(self).contents();
                let after = final(self).contents();
                ||| ((before.dom().contains(key) || before.dom().len() < resolver_capacity())
                    && after == before.insert(key, pod_template@))
                ||| (exists|victim|
                    before.dom().contains(victim) && victim != key && after == before.remove(
                        victim,
                    ).insert(key, pod_template@))
            },
    {
        let namespace: String = match &pod_template.metadata.namespace {
            Some(ns) => ns.clone(),
            None => String::from_str("default"),
        };
        let name: Option<String> = match &pod_template.metadata.name {
            Some(n) => Some(n.clone()),
            None => None,
        };
        match name {
            Some(n) => {
                lru_push(&mut self.cache, namespace, n, pod_template);
            },
            None => {},
        }
    }

    /// Cache a template under the requested key: how a lookup that had to
    /// fetch records what came back. When the cache is full and the key is
    /// new, the least-recently-used entry makes room.
    pub fn push_at(&mut self, namespace: &String, name: &String, pod_template: PodTemplate)
        requires
            old(self).wf(),
        ensures
            final(self).wf(),
            ({
                let key = (namespace@, name@);
                let before = old(self).contents();
                let after = final(self).contents();
                ||| ((before.dom().contains(key) || before.dom().len() < resolver_capacity())
                    && after == before.insert(key, pod_template@))
                ||| (exists|victim|
                    before.dom().contains(victim) && victim != key && after == before.remove(
                        victim,
                    ).insert(key, pod_template@))
            }),
    {
        lru_push(&mut self.cache, namespace.clone(), name.clone(), pod_template);
    }

    /// The notification key for a template change: `namespace/name`.
    pub fn change_key(namespace: &String, name: &String) -> (r: String)
        ensures
            r@ == namespace@ + "/"@ + name@,
    {
        namespace.clone().concat("/").concat(name.as_str())
    }

    /// The cache never outgrows its bound: a store that holds at most
    /// `resolver_capacity` templates still does after any `push`.
    pub proof fn lemma_push_bounded(
        before: Map<(Seq<char>, Seq<char>), PodTemplateView>,
        after: Map<(Seq<char>, Seq<char>), PodTemplateView>,
        key: (Seq<char>, Seq<char>),
        value: PodTemplateView,
    )
        requires
            before.dom().finite(),
            before.dom().len() <= resolver_capacity(),
            ((before.dom().contains(key) || before.dom().len() < resolver_capacity()) && after
                == before.insert(key, value)) || exists|victim|
                before.dom().contains(victim) && victim != key && after == before.remove(
                    victim,
                ).insert(key, value),
        ensures
            after.dom().finite(),
            after.dom().len() <= resolver_capacity(),
    {
        if (before.dom().contains(key) || before.dom().len() < resolver_capacity()) && after
            == before.insert(key, value) {
            assert(after.dom() =~= before.dom().insert(key));
            vstd::set::axiom_set_insert_finite(before.dom(), key);
            vstd::set::axiom_set_insert_len(before.dom(), key);
        } else {
            let victim = choose|victim|
                before.dom().contains(victim) && victim != key && after == before.remove(
                    victim,
                ).insert(key, value);
            assert(after.dom() =~= before.dom().remove(victim).insert(key));
            vstd::set::axiom_set_remove_finite(before.dom(), victim);
            vstd::set::axiom_set_insert_finite(before.dom().remove(victim), key);
            vstd::set::axiom_set_remove_len(before.dom(), victim);
            vstd::set::axiom_set_insert_len(before.dom().remove(victim), key);
        }
    }

    /// Whether a received change notification is the one awaited.
    pub fn notification_matches(awaited: &String, notification: &String) -> (r: bool)
        ensures
            r == (awaited@ == notification@),
    {
        *awaited == *notification
    }
}

} // verus!
