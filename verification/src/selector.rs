//! Selectors: interned message names. Equal names always give the same
//! selector, so that selectors are compared as numbers, never as strings.

use crate::names::{copy_bytes, same_bytes};
use vstd::prelude::*;

verus! {

/// The identity of an interned message name.
#[derive(Clone, Copy, Debug, PartialEq, Eq, Hash, Structural)]
pub struct Selector {
    pub index: usize,
}

/// The selector that interning `name` yields, given the names interned so
/// far: the position of the name, or the next free position where it is new.
pub open spec fn selector_index(names: Seq<Seq<u8>>, name: Seq<u8>) -> Selector {
    if names.contains(name) {
        Selector { index: names.index_of(name) as usize }
    } else {
        Selector { index: names.len() as usize }
    }
}

/// The names after `name` was interned.
pub open spec fn names_with(names: Seq<Seq<u8>>, name: Seq<u8>) -> Seq<Seq<u8>> {
    if names.contains(name) {
        names
    } else {
        names.push(name)
    }
}

/// The names interned so far; a selector is the position of its name.
pub struct SelectorTable {
    names: Vec<Vec<u8>>,
}

impl SelectorTable {
    /// The interned names, by selector.
    pub closed spec fn names(&self) -> Seq<Seq<u8>> {
        Seq::new(self.names@.len(), |i: int| self.names@[i]@)
    }

    /// No name is interned twice.
    pub open spec fn wf(&self) -> bool {
        forall|i: int, j: int|
            0 <= i < j < self.names().len() ==> self.names()[i] != self.names()[j]
    }

    /// Whether `sel` was handed out by this table.
    pub open spec fn knows(&self, sel: Selector) -> bool {
        sel.index < self.names().len()
    }

    /// Whether `sel` is the selector of `name`.
    pub open spec fn names_as(&self, sel: Selector, name: Seq<u8>) -> bool {
        self.knows(sel) && self.names()[sel.index as int] == name
    }

    /// Two selectors of a table are equal exactly when their names are.
    pub proof fn lemma_same_name_same_selector(&self, a: Selector, b: Selector)
        requires
            self.wf(),
            self.knows(a),
            self.knows(b),
        ensures
            (self.names()[a.index as int] == self.names()[b.index as int]) <==> a == b,
    {
        if a.index < b.index {
            assert(self.names()[a.index as int] != self.names()[b.index as int]);
        } else if b.index < a.index {
            assert(self.names()[b.index as int] != self.names()[a.index as int]);
        }
    }

    /// A table with no name in it.
    pub fn new() -> (t: SelectorTable)
        ensures
            t.wf(),
            t.names() == Seq::<Seq<u8>>::empty(),
    {
        let t = SelectorTable { names: Vec::new() };
        assert(t.names() =~= Seq::<Seq<u8>>::empty());
        t
    }

    /// The selector of `name`, if it was interned.
    pub fn lookup(&self, name: &[u8]) -> (found: Option<Selector>)
        ensures
            match found {
                Some(sel) => self.names_as(sel, name@),
                None => !self.names().contains(name@),
            },
    {
        let mut i: usize = 0;
        while i < self.names.len()
            invariant
                i <= self.names@.len(),
                forall|k: int| 0 <= k < i ==> self.names()[k] != name@,
            decreases self.names@.len() - i,
        {
            if same_bytes(self.names[i].as_slice(), name) {
                return Some(Selector { index: i });
            }
            i += 1;
        }
        None
    }

    /// The selector of `name`; the name is added when it is new. Selectors
    /// handed out before keep their names.
    pub fn intern(&mut self, name: &[u8]) -> (sel: Selector)
        requires
            old(self).wf(),
        ensures
            final(self).wf(),
            final(self).names_as(sel, name@),
            sel == selector_index(old(self).names(), name@),
            final(self).names() == names_with(old(self).names(), name@),
    {
        match self.lookup(name) {
            Some(sel) => {
                proof {
                    let names = self.names();
                    let at = names.index_of(name@);
                    assert(names[sel.index as int] == name@);
                    if at < sel.index {
                        assert(names[at] != names[sel.index as int]);
                    } else if sel.index < at {
                        assert(names[sel.index as int] != names[at]);
                    }
                }
                sel
            },
            None => {
                let index: usize = self.names.len();
                self.names.push(copy_bytes(name));
                assert(final(self).names() =~= old(self).names().push(name@));
                Selector { index }
            },
        }
    }

    /// The name of `sel`, or `None` when this table did not hand it out.
    pub fn name(&self, sel: Selector) -> (found: Option<Vec<u8>>)
        ensures
            found is Some <==> self.knows(sel),
            found is Some ==> found->Some_0@ == self.names()[sel.index as int],
    {
        if sel.index < self.names.len() {
            Some(copy_bytes(self.names[sel.index].as_slice()))
        } else {
            None
        }
    }

    /// A copy of the table.
    pub fn snapshot(&self) -> (copy: SelectorTable)
        ensures
            copy.names() == self.names(),
    {
        let mut names: Vec<Vec<u8>> = Vec::new();
        let mut i: usize = 0;
        while i < self.names.len()
            invariant
                i <= self.names@.len(),
                names@.len() == i,
                forall|k: int| 0 <= k < i ==> (#[trigger] names@[k])@ == self.names@[k]@,
            decreases self.names@.len() - i,
        {
            names.push(copy_bytes(self.names[i].as_slice()));
            i += 1;
        }
        let copy = SelectorTable { names };
        assert(copy.names() =~= self.names());
        copy
    }

    /// How many names are interned.
    pub fn len(&self) -> (n: usize)
        ensures
            n == self.names().len(),
    {
        self.names.len()
    }
}

} // verus!
