//! The registry of host-implemented functions and constants. The frameworks
//! fill it before any image is loaded; the loader looks each imported symbol
//! up in it, by the exact name that the guest binary asks for.

use crate::names::{copy_bytes, same_bytes};
use vstd::prelude::*;

verus! {

/// What an imported symbol is bound to on the host side.
#[derive(Clone, Copy, Debug, PartialEq, Eq, Structural)]
pub enum HostBinding {
    /// A host function, by its number. Its signature was declared with it.
    Function(usize),
    /// A constant with this value.
    Constant(u32),
}

/// One registered symbol.
pub struct Export {
    name: Vec<u8>,
    binding: HostBinding,
}

/// The binding of `name` among the entries at or after `from`: that of the
/// first entry with this name.
pub open spec fn binding_from(
    entries: Seq<(Seq<u8>, HostBinding)>,
    name: Seq<u8>,
    from: int,
) -> Option<HostBinding>
    decreases entries.len() - from,
{
    if from < 0 || from >= entries.len() {
        None
    } else if entries[from].0 == name {
        Some(entries[from].1)
    } else {
        binding_from(entries, name, from + 1)
    }
}

/// The binding of `name`, if the name is registered.
pub open spec fn binding_of(entries: Seq<(Seq<u8>, HostBinding)>, name: Seq<u8>) -> Option<
    HostBinding,
> {
    binding_from(entries, name, 0)
}

/// Adding an entry at the end changes no binding that was there, and binds
/// a name that was free.
pub proof fn lemma_binding_after_push(
    entries: Seq<(Seq<u8>, HostBinding)>,
    added: (Seq<u8>, HostBinding),
    name: Seq<u8>,
    from: int,
)
    requires
        0 <= from <= entries.len(),
    ensures
        binding_from(entries.push(added), name, from) == match binding_from(entries, name, from) {
            Some(binding) => Some(binding),
            None => if added.0 == name {
                Some(added.1)
            } else {
                None
            },
        },
    decreases entries.len() - from,
{
    let longer = entries.push(added);
    if from < entries.len() {
        assert(longer[from] == entries[from]);
        if entries[from].0 != name {
            lemma_binding_after_push(entries, added, name, from + 1);
        }
    } else {
        assert(longer[from] == added);
        assert(binding_from(longer, name, from + 1) is None);
    }
}

/// The registered symbols.
pub struct Registry {
    exports: Vec<Export>,
}

impl Registry {
    /// The registered names with their bindings, in the order of
    /// registration.
    pub closed spec fn entries(&self) -> Seq<(Seq<u8>, HostBinding)> {
        Seq::new(self.exports@.len(), |i: int| (self.exports@[i].name@, self.exports@[i].binding))
    }

    /// An empty registry.
    pub fn new() -> (r: Registry)
        ensures
            r.entries() == Seq::<(Seq<u8>, HostBinding)>::empty(),
    {
        let r = Registry { exports: Vec::new() };
        assert(r.entries() =~= Seq::<(Seq<u8>, HostBinding)>::empty());
        r
    }

    /// The binding of `name`, if the name is registered.
    pub fn lookup(&self, name: &[u8]) -> (found: Option<HostBinding>)
        ensures
            found == binding_of(self.entries(), name@),
    {
        let mut i: usize = 0;
        while i < self.exports.len()
            invariant
                i <= self.exports@.len(),
                binding_of(self.entries(), name@) == binding_from(self.entries(), name@, i as int),
            decreases self.exports@.len() - i,
        {
            if same_bytes(self.exports[i].name.as_slice(), name) {
                return Some(self.exports[i].binding);
            }
            i += 1;
        }
        None
    }

    /// Binds `name` to `binding`. A name that is bound already keeps its
    /// binding; the answer says whether the name was free.
    pub fn register(&mut self, name: &[u8], binding: HostBinding) -> (added: bool)
        ensures
            added == (binding_of(old(self).entries(), name@) is None),
            added ==> final(self).entries() == old(self).entries().push((name@, binding)),
            !added ==> final(self).entries() == old(self).entries(),
            binding_of(final(self).entries(), name@) == Some(
                match binding_of(old(self).entries(), name@) {
                    Some(kept) => kept,
                    None => binding,
                },
            ),
            forall|other: Seq<u8>|
                other != name@ ==> binding_of(final(self).entries(), other) == binding_of(
                    old(self).entries(),
                    other,
                ),
    {
        if self.lookup(name).is_some() {
            return false;
        }
        self.exports.push(Export { name: copy_bytes(name), binding });
        proof {
            assert(final(self).entries() =~= old(self).entries().push((name@, binding)));
            lemma_binding_after_push(old(self).entries(), (name@, binding), name@, 0);
            assert forall|other: Seq<u8>| other != name@ implies binding_of(
                final(self).entries(),
                other,
            ) == binding_of(old(self).entries(), other) by {
                lemma_binding_after_push(old(self).entries(), (name@, binding), other, 0);
            }
        }
        true
    }

    /// How many symbols are registered.
    pub fn len(&self) -> (n: usize)
        ensures
            n == self.entries().len(),
    {
        self.exports.len()
    }
}

} // verus!
