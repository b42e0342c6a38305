//! The dispatch cache: what the chain walk found for a class and a
//! selector, kept so that a repeated send need not walk the chain again.
//! The cache never answers otherwise than the chain walk would.

use crate::class::{resolve, ClassId, ClassView, Imp, MethodKind};
use crate::selector::Selector;
use std::collections::HashMap;
use vstd::prelude::*;

verus! {

broadcast use vstd::std_specs::hash::group_hash_axioms;

/// Classes below this number can have their sends cached.
pub const CACHED_CLASSES: usize = 0x10_0000;

/// Selectors below this number can have their sends cached.
pub const CACHED_SELECTORS: usize = 0x100_0000;

/// The number that stands for a method kind in a key.
pub open spec fn kind_bit(kind: MethodKind) -> int {
    match kind {
        MethodKind::Instance => 0,
        MethodKind::Class => 1,
    }
}

/// The key under which the cache keeps what a send of `sel` to `class`
/// resolves to, or nothing where such a send is not cached.
pub open spec fn cache_key(class: ClassId, sel: Selector, kind: MethodKind) -> Option<u64> {
    if class < CACHED_CLASSES && sel.index < CACHED_SELECTORS {
        Some(((class * CACHED_SELECTORS + sel.index) * 2 + kind_bit(kind)) as u64)
    } else {
        None
    }
}

/// Different sends have different keys.
pub proof fn lemma_cache_key_injective(
    class: ClassId,
    sel: Selector,
    kind: MethodKind,
    other_class: ClassId,
    other_sel: Selector,
    other_kind: MethodKind,
)
    requires
        cache_key(class, sel, kind) is Some,
        cache_key(class, sel, kind) == cache_key(other_class, other_sel, other_kind),
    ensures
        class == other_class,
        sel == other_sel,
        kind == other_kind,
{
    let m = CACHED_SELECTORS as int;
    let a = class * m + sel.index;
    let b = other_class * m + other_sel.index;
    assert(a * 2 + kind_bit(kind) == b * 2 + kind_bit(other_kind));
    assert(a == b);
    assert(class == other_class) by (nonlinear_arith)
        requires
            class * m + sel.index == other_class * m + other_sel.index,
            0 <= sel.index < m,
            0 <= other_sel.index < m,
    ;
}

/// Registering a class changes no chain walk from a class that was there.
pub proof fn lemma_resolve_after_push(
    classes: Seq<ClassView>,
    added: ClassView,
    class: ClassId,
    sel: Selector,
    kind: MethodKind,
)
    requires
        class < classes.len(),
    ensures
        resolve(classes.push(added), class, sel, kind) == resolve(classes, class, sel, kind),
    decreases class,
{
    assert(classes.push(added)[class as int] == classes[class as int]);
    match classes[class as int].superclass {
        Some(sup) => {
            if sup < class {
                lemma_resolve_after_push(classes, added, sup, sel, kind);
            }
        },
        None => {},
    }
}

/// What chain walks have found.
pub struct DispatchCache {
    entries: HashMap<u64, (ClassId, Imp)>,
}

impl DispatchCache {
    /// What is kept, by key.
    pub closed spec fn entries(&self) -> Map<u64, (ClassId, Imp)> {
        self.entries@
    }

    /// Whether everything that is kept is what the chain walk over
    /// `classes` finds.
    pub open spec fn coherent(&self, classes: Seq<ClassView>) -> bool {
        forall|class: ClassId, sel: Selector, kind: MethodKind|
            (#[trigger] cache_key(class, sel, kind)) is Some && self.entries().contains_key(
                cache_key(class, sel, kind)->Some_0,
            ) ==> resolve(classes, class, sel, kind) == Some(
                self.entries()[cache_key(class, sel, kind)->Some_0],
            )
    }

    /// An empty cache.
    pub fn new() -> (cache: DispatchCache)
        ensures
            cache.entries() == Map::<u64, (ClassId, Imp)>::empty(),
    {
        DispatchCache { entries: HashMap::new() }
    }

    /// Forgets everything.
    pub fn clear(&mut self)
        ensures
            final(self).entries() == Map::<u64, (ClassId, Imp)>::empty(),
    {
        self.entries.clear();
    }

    /// The key of a send, where such a send is cached.
    fn key(class: ClassId, sel: Selector, kind: MethodKind) -> (key: Option<u64>)
        ensures
            key == cache_key(class, sel, kind),
    {
        if class < CACHED_CLASSES && sel.index < CACHED_SELECTORS {
            let bit: u64 = match kind {
                MethodKind::Instance => 0,
                MethodKind::Class => 1,
            };
            Some((class as u64 * (CACHED_SELECTORS as u64) + sel.index as u64) * 2 + bit)
        } else {
            None
        }
    }

    /// What is kept for a send of `sel` to `class`.
    pub fn get(&self, class: ClassId, sel: Selector, kind: MethodKind) -> (found: Option<
        (ClassId, Imp),
    >)
        ensures
            found == (match cache_key(class, sel, kind) {
                Some(key) => if self.entries().contains_key(key) {
                    Some(self.entries()[key])
                } else {
                    None
                },
                None => None,
            }),
    {
        match Self::key(class, sel, kind) {
            Some(key) => match self.entries.get(&key) {
                Some(found) => Some(*found),
                None => None,
            },
            None => None,
        }
    }

    /// Keeps `found` for a send of `sel` to `class`, where such a send is
    /// cached.
    pub fn put(&mut self, class: ClassId, sel: Selector, kind: MethodKind, found: (ClassId, Imp))
        ensures
            final(self).entries() == (match cache_key(class, sel, kind) {
                Some(key) => old(self).entries().insert(key, found),
                None => old(self).entries(),
            }),
    {
        match Self::key(class, sel, kind) {
            Some(key) => {
                self.entries.insert(key, found);
            },
            None => {},
        }
    }

    /// A copy of the cache.
    pub fn snapshot(&self) -> (copy: DispatchCache)
        ensures
            copy.entries() == self.entries(),
    {
        DispatchCache { entries: self.entries.clone() }
    }

    /// Keeping what the chain walk found keeps the cache coherent.
    pub proof fn lemma_put_keeps_coherent(
        &self,
        after: &DispatchCache,
        classes: Seq<ClassView>,
        class: ClassId,
        sel: Selector,
        kind: MethodKind,
        found: (ClassId, Imp),
    )
        requires
            self.coherent(classes),
            resolve(classes, class, sel, kind) == Some(found),
            after.entries() == (match cache_key(class, sel, kind) {
                Some(key) => self.entries().insert(key, found),
                None => self.entries(),
            }),
        ensures
            after.coherent(classes),
    {
        assert forall|c: ClassId, s: Selector, k: MethodKind|
            (#[trigger] cache_key(c, s, k)) is Some && after.entries().contains_key(
                cache_key(c, s, k)->Some_0,
            ) implies resolve(classes, c, s, k) == Some(
            after.entries()[cache_key(c, s, k)->Some_0],
        ) by {
            if cache_key(c, s, k) == cache_key(class, sel, kind) {
                lemma_cache_key_injective(c, s, k, class, sel, kind);
            }
        }
    }

    /// A coherent cache stays coherent when a class is registered.
    pub proof fn lemma_push_keeps_coherent(&self, classes: Seq<ClassView>, added: ClassView)
        requires
            self.coherent(classes),
        ensures
            self.coherent(classes.push(added)),
    {
        assert forall|c: ClassId, s: Selector, k: MethodKind|
            (#[trigger] cache_key(c, s, k)) is Some && self.entries().contains_key(
                cache_key(c, s, k)->Some_0,
            ) implies resolve(classes.push(added), c, s, k) == Some(
            self.entries()[cache_key(c, s, k)->Some_0],
        ) by {
            assert(resolve(classes, c, s, k) is Some);
            lemma_resolve_after_push(classes, added, c, s, k);
        }
    }
}

} // verus!
