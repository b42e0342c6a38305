//! The class table: single inheritance, one method table per class for its
//! instances and one for the class itself, and the chain walk that resolves
//! a selector.

use crate::error::ObjcError;
use crate::mem::GuestAddress;
use crate::names::{copy_bytes, same_bytes};
use crate::selector::Selector;
use vstd::prelude::*;

verus! {

/// The identity of a registered class: its position in the class table.
pub type ClassId = usize;

/// What a method is implemented by.
#[derive(Clone, Copy, Debug, PartialEq, Eq, Structural)]
pub enum Imp {
    /// A host function, by its number in the host's registry.
    Host(usize),
    /// Guest code at this address.
    Guest(GuestAddress),
}

/// One entry of a method table.
#[derive(Clone, Copy, Debug, PartialEq, Eq, Structural)]
pub struct Method {
    pub selector: Selector,
    pub imp: Imp,
}

/// Which of a class's two method tables is meant.
#[derive(Clone, Copy, Debug, PartialEq, Eq, Structural)]
pub enum MethodKind {
    /// Methods of the class's instances.
    Instance,
    /// Methods of the class itself.
    Class,
}

/// What is handed in to register a class.
pub struct ClassDef {
    pub name: Vec<u8>,
    /// Name of the superclass; `None` for a root class.
    pub superclass: Option<Vec<u8>>,
    /// Bytes of guest storage that an instance takes.
    pub instance_size: u32,
    pub methods: Vec<Method>,
    pub class_methods: Vec<Method>,
    /// The forwarding hook, offered a selector that the chain does not define.
    pub forwarding: Option<Imp>,
}

/// A class definition as contracts see it.
pub struct ClassDefView {
    pub name: Seq<u8>,
    pub superclass: Option<Seq<u8>>,
    pub instance_size: u32,
    pub methods: Seq<Method>,
    pub class_methods: Seq<Method>,
    pub forwarding: Option<Imp>,
}

impl View for ClassDef {
    type V = ClassDefView;

    open spec fn view(&self) -> ClassDefView {
        ClassDefView {
            name: self.name@,
            superclass: match self.superclass {
                Some(name) => Some(name@),
                None => None,
            },
            instance_size: self.instance_size,
            methods: self.methods@,
            class_methods: self.class_methods@,
            forwarding: self.forwarding,
        }
    }
}

/// A registered class.
pub struct ObjCClass {
    name: Vec<u8>,
    superclass: Option<ClassId>,
    instance_size: u32,
    methods: Vec<Method>,
    class_methods: Vec<Method>,
    forwarding: Option<Imp>,
}

/// A registered class as contracts see it.
pub struct ClassView {
    pub name: Seq<u8>,
    pub superclass: Option<ClassId>,
    pub instance_size: u32,
    pub methods: Seq<Method>,
    pub class_methods: Seq<Method>,
    pub forwarding: Option<Imp>,
}

impl View for ObjCClass {
    type V = ClassView;

    closed spec fn view(&self) -> ClassView {
        ClassView {
            name: self.name@,
            superclass: self.superclass,
            instance_size: self.instance_size,
            methods: self.methods@,
            class_methods: self.class_methods@,
            forwarding: self.forwarding,
        }
    }
}

impl ClassView {
    /// The method table of the given kind.
    pub open spec fn own_methods(self, kind: MethodKind) -> Seq<Method> {
        match kind {
            MethodKind::Instance => self.methods,
            MethodKind::Class => self.class_methods,
        }
    }
}

/// The first implementation of `sel` in `methods` at or after position
/// `from`.
pub open spec fn find_method_from(methods: Seq<Method>, sel: Selector, from: int) -> Option<Imp>
    decreases methods.len() - from,
{
    if from < 0 || from >= methods.len() {
        None
    } else if methods[from].selector == sel {
        Some(methods[from].imp)
    } else {
        find_method_from(methods, sel, from + 1)
    }
}

/// The first implementation of `sel` in `methods`.
pub open spec fn find_method(methods: Seq<Method>, sel: Selector) -> Option<Imp> {
    find_method_from(methods, sel, 0)
}

/// The first position at or after `from` at which `methods` holds an entry
/// for `sel`, or the length of `methods` where it holds none.
pub open spec fn method_position(methods: Seq<Method>, sel: Selector, from: int) -> int
    decreases methods.len() - from,
{
    if from < 0 || from >= methods.len() {
        methods.len() as int
    } else if methods[from].selector == sel {
        from
    } else {
        method_position(methods, sel, from + 1)
    }
}

/// A method table after `method` was added: it takes the place of the first
/// entry for its selector, or stands last where there was none.
pub open spec fn methods_with(methods: Seq<Method>, method: Method) -> Seq<Method> {
    let at = method_position(methods, method.selector, 0);
    if at < methods.len() {
        methods.update(at, method)
    } else {
        methods.push(method)
    }
}

/// A class after `method` was added to its table of the given kind.
pub open spec fn class_with_method(class: ClassView, kind: MethodKind, method: Method)
    -> ClassView {
    match kind {
        MethodKind::Instance => ClassView {
            methods: methods_with(class.methods, method),
            ..class
        },
        MethodKind::Class => ClassView {
            class_methods: methods_with(class.class_methods, method),
            ..class
        },
    }
}

/// What a table answers for `sel` from `from` on, after `method` was
/// added: the new implementation for its selector, and what it answered
/// before for every other.
pub proof fn lemma_find_after_add(methods: Seq<Method>, method: Method, sel: Selector, from: int)
    requires
        0 <= from <= methods.len(),
        method_position(methods, method.selector, 0) == method_position(
            methods,
            method.selector,
            from,
        ),
    ensures
        find_method_from(methods_with(methods, method), sel, from) == (if sel == method.selector {
            Some(method.imp)
        } else {
            find_method_from(methods, sel, from)
        }),
    decreases methods.len() - from,
{
    let after = methods_with(methods, method);
    let at = method_position(methods, method.selector, 0);
    lemma_method_position_bounds(methods, method.selector, from);
    if from < methods.len() {
        if methods[from].selector == method.selector {
            assert(at == from);
            assert(after[from] == method);
            lemma_find_agrees(after, methods, sel, from + 1);
        } else {
            lemma_method_position_bounds(methods, method.selector, from + 1);
            assert(after[from] == methods[from]);
            lemma_find_after_add(methods, method, sel, from + 1);
        }
    } else {
        assert(at == methods.len());
        assert(after[from] == method);
        assert(find_method_from(after, sel, from + 1) is None);
    }
}

/// Tables of one length that agree from `from` on answer alike from there.
pub proof fn lemma_find_agrees(a: Seq<Method>, b: Seq<Method>, sel: Selector, from: int)
    requires
        0 <= from,
        a.len() == b.len(),
        forall|i: int| from <= i < a.len() ==> a[i] == b[i],
    ensures
        find_method_from(a, sel, from) == find_method_from(b, sel, from),
    decreases a.len() - from,
{
    if from < a.len() {
        lemma_find_agrees(a, b, sel, from + 1);
    }
}

/// A position found from `from` on lies at or after `from`, holds the
/// selector where it lies inside the table, and no entry between holds it.
pub proof fn lemma_method_position_bounds(methods: Seq<Method>, sel: Selector, from: int)
    requires
        0 <= from <= methods.len(),
    ensures
        from <= method_position(methods, sel, from) <= methods.len(),
        method_position(methods, sel, from) < methods.len() ==> methods[method_position(
            methods,
            sel,
            from,
        )].selector == sel,
    decreases methods.len() - from,
{
    if from < methods.len() && methods[from].selector != sel {
        lemma_method_position_bounds(methods, sel, from + 1);
    }
}

/// The chain walk: the nearest class at or above `class` whose own table of
/// the given kind defines `sel`, with the implementation found there.
pub open spec fn resolve(classes: Seq<ClassView>, class: ClassId, sel: Selector, kind: MethodKind)
    -> Option<(ClassId, Imp)>
    decreases class,
{
    if class >= classes.len() {
        None
    } else {
        match find_method(classes[class as int].own_methods(kind), sel) {
            Some(imp) => Some((class, imp)),
            None => match classes[class as int].superclass {
                Some(sup) => if sup < class {
                    resolve(classes, sup, sel, kind)
                } else {
                    None
                },
                None => None,
            },
        }
    }
}

/// The forwarding hook of the nearest class at or above `class` that
/// declares one.
pub open spec fn forwarding_hook(classes: Seq<ClassView>, class: ClassId) -> Option<Imp>
    decreases class,
{
    if class >= classes.len() {
        None
    } else {
        match classes[class as int].forwarding {
            Some(hook) => Some(hook),
            None => match classes[class as int].superclass {
                Some(sup) => if sup < class {
                    forwarding_hook(classes, sup)
                } else {
                    None
                },
                None => None,
            },
        }
    }
}

/// Whether `class` is `other` or has it on its superclass chain.
pub open spec fn is_subclass(classes: Seq<ClassView>, class: ClassId, other: ClassId) -> bool
    decreases class,
{
    if class >= classes.len() {
        false
    } else if class == other {
        true
    } else {
        match classes[class as int].superclass {
            Some(sup) => sup < class && is_subclass(classes, sup, other),
            None => false,
        }
    }
}

/// The class `steps` superclass links above `class`, if the chain is that
/// long.
pub open spec fn ancestor(classes: Seq<ClassView>, class: ClassId, steps: nat) -> Option<ClassId>
    decreases steps,
{
    if class >= classes.len() {
        None
    } else if steps == 0 {
        Some(class)
    } else {
        match classes[class as int].superclass {
            Some(sup) => if sup < class {
                ancestor(classes, sup, (steps - 1) as nat)
            } else {
                None
            },
            None => None,
        }
    }
}

/// Inheritance: where a class `above` lies `steps` links over `class`,
/// defines `sel`, and no class below it on the chain does, the chain walk
/// from `class` ends at `above` with the implementation that `above` gives.
pub proof fn lemma_inherited_method_resolves(
    classes: Seq<ClassView>,
    class: ClassId,
    above: ClassId,
    steps: nat,
    sel: Selector,
    kind: MethodKind,
    imp: Imp,
)
    requires
        ancestor(classes, class, steps) == Some(above),
        find_method(classes[above as int].own_methods(kind), sel) == Some(imp),
        forall|k: nat|
            k < steps ==> {
                let below = #[trigger] ancestor(classes, class, k);
                below is Some && find_method(
                    classes[below->Some_0 as int].own_methods(kind),
                    sel,
                ) is None
            },
    ensures
        resolve(classes, class, sel, kind) == Some((above, imp)),
    decreases steps,
{
    if steps > 0 {
        assert(ancestor(classes, class, 0) == Some(class));
        let sup = classes[class as int].superclass->Some_0;
        assert forall|k: nat| k < steps - 1 implies {
            let below = #[trigger] ancestor(classes, sup, k);
            below is Some && find_method(classes[below->Some_0 as int].own_methods(kind), sel)
                is None
        } by {
            assert(ancestor(classes, class, k + 1) == ancestor(classes, sup, k));
        }
        lemma_inherited_method_resolves(
            classes,
            sup,
            above,
            (steps - 1) as nat,
            sel,
            kind,
            imp,
        );
    }
}

/// A method that was added to a class answers the sends of its selector to
/// that class from then on.
pub proof fn lemma_added_method_resolves(
    classes: Seq<ClassView>,
    class: ClassId,
    kind: MethodKind,
    method: Method,
)
    requires
        class < classes.len(),
    ensures
        resolve(
            classes.update(class as int, class_with_method(classes[class as int], kind, method)),
            class,
            method.selector,
            kind,
        ) == Some((class, method.imp)),
{
    lemma_find_after_add(classes[class as int].own_methods(kind), method, method.selector, 0);
}

/// The class called `name`, if one is registered.
pub open spec fn class_index(classes: Seq<ClassView>, name: Seq<u8>) -> Option<ClassId> {
    if exists|i: int| 0 <= i < classes.len() && #[trigger] classes[i].name == name {
        Some((choose|i: int| 0 <= i < classes.len() && #[trigger] classes[i].name == name) as usize)
    } else {
        None
    }
}

/// The invariant of a class table: every superclass was registered before
/// its subclass, so that the links form no cycle, and no two classes share a
/// name.
pub open spec fn classes_wf(classes: Seq<ClassView>) -> bool {
    &&& forall|i: int|
        0 <= i < classes.len() && (#[trigger] classes[i]).superclass is Some
            ==> classes[i].superclass->Some_0 < i
    &&& forall|i: int, j: int|
        0 <= i < j < classes.len() ==> (#[trigger] classes[i]).name != (#[trigger] classes[j]).name
}

/// The superclass that a definition names, as the table knows it.
pub open spec fn named_superclass(classes: Seq<ClassView>, def: ClassDefView) -> Option<ClassId> {
    match def.superclass {
        Some(name) => class_index(classes, name),
        None => None,
    }
}

/// The class that registering `def` adds.
pub open spec fn class_of_def(classes: Seq<ClassView>, def: ClassDefView) -> ClassView {
    ClassView {
        name: def.name,
        superclass: named_superclass(classes, def),
        instance_size: def.instance_size,
        methods: def.methods,
        class_methods: def.class_methods,
        forwarding: def.forwarding,
    }
}

/// What registering `def` answers: `DuplicateClass` where the name is taken,
/// else `UnknownSuperclass` where the named superclass is missing, else the
/// new class's identity.
pub open spec fn register_outcome(classes: Seq<ClassView>, def: ClassDefView) -> Result<
    ClassId,
    ObjcError,
> {
    if class_index(classes, def.name) is Some {
        Err(ObjcError::DuplicateClass)
    } else if def.superclass is Some && named_superclass(classes, def) is None {
        Err(ObjcError::UnknownSuperclass)
    } else {
        Ok(classes.len() as usize)
    }
}

/// The registered classes.
pub struct ClassTable {
    classes: Vec<ObjCClass>,
}

impl ClassTable {
    /// The registered classes, by identity.
    pub closed spec fn classes(&self) -> Seq<ClassView> {
        Seq::new(self.classes@.len(), |i: int| self.classes@[i]@)
    }

    /// See [`classes_wf`].
    pub open spec fn wf(&self) -> bool {
        classes_wf(self.classes())
    }

    /// A table with no class in it.
    pub fn new() -> (t: ClassTable)
        ensures
            t.wf(),
            t.classes() == Seq::<ClassView>::empty(),
    {
        let t = ClassTable { classes: Vec::new() };
        assert(t.classes() =~= Seq::<ClassView>::empty());
        t
    }

    /// A copy of the table.
    pub fn snapshot(&self) -> (copy: ClassTable)
        ensures
            copy.classes() == self.classes(),
    {
        let mut classes: Vec<ObjCClass> = Vec::new();
        let mut i: usize = 0;
        while i < self.classes.len()
            invariant
                i <= self.classes@.len(),
                classes@.len() == i,
                forall|k: int| 0 <= k < i ==> (#[trigger] classes@[k])@ == self.classes@[k]@,
            decreases self.classes@.len() - i,
        {
            let class = &self.classes[i];
            let methods = class.methods.clone();
            let class_methods = class.class_methods.clone();
            assert(methods@ =~= class.methods@);
            assert(class_methods@ =~= class.class_methods@);
            classes.push(
                ObjCClass {
                    name: copy_bytes(class.name.as_slice()),
                    superclass: class.superclass,
                    instance_size: class.instance_size,
                    methods,
                    class_methods,
                    forwarding: class.forwarding,
                },
            );
            i += 1;
        }
        let copy = ClassTable { classes };
        assert(copy.classes() =~= self.classes());
        copy
    }

    /// How many classes are registered.
    pub fn len(&self) -> (n: usize)
        ensures
            n == self.classes().len(),
    {
        self.classes.len()
    }

    /// The class called `name`, if one is registered.
    pub fn find_class(&self, name: &[u8]) -> (found: Option<ClassId>)
        requires
            self.wf(),
        ensures
            found == class_index(self.classes(), name@),
            found is Some ==> {
                &&& found->Some_0 < self.classes().len()
                &&& self.classes()[found->Some_0 as int].name == name@
            },
    {
        let mut i: usize = 0;
        while i < self.classes.len()
            invariant
                self.wf(),
                i <= self.classes@.len(),
                forall|k: int| 0 <= k < i ==> (#[trigger] self.classes()[k]).name != name@,
            decreases self.classes@.len() - i,
        {
            if same_bytes(self.classes[i].name.as_slice(), name) {
                proof {
                    let classes = self.classes();
                    assert(classes[i as int].name == name@);
                    let j = choose|j: int|
                        0 <= j < classes.len() && #[trigger] classes[j].name == name@;
                    if j < i {
                        assert(classes[j].name != classes[i as int].name);
                    } else if i < j {
                        assert(classes[i as int].name != classes[j].name);
                    }
                }
                return Some(i);
            }
            i += 1;
        }
        None
    }

    /// Registers a class. Fails, changing nothing, with `DuplicateClass`
    /// where the name is taken and else with `UnknownSuperclass` where the
    /// named superclass is not registered.
    pub fn register_class(&mut self, def: ClassDef) -> (r: Result<ClassId, ObjcError>)
        requires
            old(self).wf(),
        ensures
            final(self).wf(),
            r == register_outcome(old(self).classes(), def@),
            r is Ok ==> final(self).classes() == old(self).classes().push(
                class_of_def(old(self).classes(), def@),
            ),
            r is Err ==> final(self).classes() == old(self).classes(),
    {
        if self.find_class(def.name.as_slice()).is_some() {
            return Err(ObjcError::DuplicateClass);
        }
        let superclass: Option<ClassId> = match &def.superclass {
            None => None,
            Some(name) => match self.find_class(name.as_slice()) {
                Some(sup) => Some(sup),
                None => {
                    return Err(ObjcError::UnknownSuperclass);
                },
            },
        };
        let id: usize = self.classes.len();
        let ghost added = class_of_def(self.classes(), def@);
        self.classes.push(
            ObjCClass {
                name: def.name,
                superclass,
                instance_size: def.instance_size,
                methods: def.methods,
                class_methods: def.class_methods,
                forwarding: def.forwarding,
            },
        );
        assert(final(self).classes() =~= old(self).classes().push(added));
        Ok(id)
    }

    /// The chain walk from `class` for `sel`: the class that defines it and
    /// the implementation found there.
    pub fn resolve(&self, class: ClassId, sel: Selector, kind: MethodKind) -> (found: Option<
        (ClassId, Imp),
    >)
        ensures
            found == resolve(self.classes(), class, sel, kind),
    {
        let mut cur: usize = class;
        loop
            invariant
                resolve(self.classes(), class, sel, kind) == resolve(
                    self.classes(),
                    cur,
                    sel,
                    kind,
                ),
            decreases cur,
        {
            if cur >= self.classes.len() {
                return None;
            }
            let own = match kind {
                MethodKind::Instance => lookup_method(self.classes[cur].methods.as_slice(), sel),
                MethodKind::Class => lookup_method(
                    self.classes[cur].class_methods.as_slice(),
                    sel,
                ),
            };
            assert(own == find_method(self.classes()[cur as int].own_methods(kind), sel));
            match own {
                Some(imp) => {
                    return Some((cur, imp));
                },
                None => {},
            }
            match self.classes[cur].superclass {
                Some(sup) => {
                    if sup < cur {
                        cur = sup;
                    } else {
                        return None;
                    }
                },
                None => {
                    return None;
                },
            }
        }
    }

    /// The forwarding hook that is offered a selector which the chain from
    /// `class` does not define.
    pub fn forwarding(&self, class: ClassId) -> (found: Option<Imp>)
        ensures
            found == forwarding_hook(self.classes(), class),
    {
        let mut cur: usize = class;
        loop
            invariant
                forwarding_hook(self.classes(), class) == forwarding_hook(self.classes(), cur),
            decreases cur,
        {
            if cur >= self.classes.len() {
                return None;
            }
            assert(self.classes()[cur as int].forwarding == self.classes@[cur as int].forwarding);
            match self.classes[cur].forwarding {
                Some(hook) => {
                    return Some(hook);
                },
                None => {},
            }
            match self.classes[cur].superclass {
                Some(sup) => {
                    if sup < cur {
                        cur = sup;
                    } else {
                        return None;
                    }
                },
                None => {
                    return None;
                },
            }
        }
    }

    /// Adds `method` to the table of the given kind of `class`, where it
    /// replaces the class's own entry for its selector, if there is one.
    /// The answer says whether `class` is registered; nothing changes where
    /// it is not.
    pub fn add_method(&mut self, class: ClassId, kind: MethodKind, method: Method) -> (added: bool)
        requires
            old(self).wf(),
        ensures
            final(self).wf(),
            added == (class < old(self).classes().len()),
            added ==> final(self).classes() == old(self).classes().update(
                class as int,
                class_with_method(old(self).classes()[class as int], kind, method),
            ),
            !added ==> final(self).classes() == old(self).classes(),
    {
        if class >= self.classes.len() {
            return false;
        }
        let mut changed = self.classes.remove(class);
        match kind {
            MethodKind::Instance => put_method(&mut changed.methods, method),
            MethodKind::Class => put_method(&mut changed.class_methods, method),
        }
        assert(changed@ == class_with_method(old(self).classes()[class as int], kind, method));
        self.classes.insert(class, changed);
        assert(final(self).classes() =~= old(self).classes().update(
            class as int,
            class_with_method(old(self).classes()[class as int], kind, method),
        ));
        true
    }

    /// Whether `class` is `other` or has it on its superclass chain.
    pub fn is_subclass_of(&self, class: ClassId, other: ClassId) -> (yes: bool)
        ensures
            yes == is_subclass(self.classes(), class, other),
    {
        let mut cur: usize = class;
        loop
            invariant
                is_subclass(self.classes(), class, other) == is_subclass(
                    self.classes(),
                    cur,
                    other,
                ),
            decreases cur,
        {
            if cur >= self.classes.len() {
                return false;
            }
            if cur == other {
                return true;
            }
            assert(self.classes()[cur as int].superclass == self.classes@[cur as int].superclass);
            match self.classes[cur].superclass {
                Some(sup) => {
                    if sup < cur {
                        cur = sup;
                    } else {
                        return false;
                    }
                },
                None => {
                    return false;
                },
            }
        }
    }

    /// The storage that an instance of `class` takes, or `None` where no such
    /// class is registered.
    pub fn instance_size(&self, class: ClassId) -> (size: Option<u32>)
        ensures
            size == (if class < self.classes().len() {
                Some(self.classes()[class as int].instance_size)
            } else {
                None
            }),
    {
        if class < self.classes.len() {
            Some(self.classes[class].instance_size)
        } else {
            None
        }
    }

    /// The superclass of `class`, or `None` where it has none or is not
    /// registered.
    pub fn superclass(&self, class: ClassId) -> (sup: Option<ClassId>)
        ensures
            sup == (if class < self.classes().len() {
                self.classes()[class as int].superclass
            } else {
                None
            }),
    {
        if class < self.classes.len() {
            self.classes[class].superclass
        } else {
            None
        }
    }

    /// The name of `class`, or `None` where no such class is registered.
    pub fn name(&self, class: ClassId) -> (name: Option<Vec<u8>>)
        ensures
            name is Some <==> class < self.classes().len(),
            name is Some ==> name->Some_0@ == self.classes()[class as int].name,
    {
        if class < self.classes.len() {
            Some(copy_bytes(self.classes[class].name.as_slice()))
        } else {
            None
        }
    }
}

/// Adds `method` to a method table: in the place of the first entry for its
/// selector, or last where there is none.
fn put_method(methods: &mut Vec<Method>, method: Method)
    ensures
        final(methods)@ == methods_with(old(methods)@, method),
{
    let mut i: usize = 0;
    while i < methods.len()
        invariant
            *methods == *old(methods),
            i <= methods@.len(),
            method_position(methods@, method.selector, 0) == method_position(
                methods@,
                method.selector,
                i as int,
            ),
        decreases methods@.len() - i,
    {
        if methods[i].selector == method.selector {
            methods.set(i, method);
            return ;
        }
        i += 1;
    }
    methods.push(method);
}

/// The implementation of `sel` in one method table.
pub fn lookup_method(methods: &[Method], sel: Selector) -> (found: Option<Imp>)
    ensures
        found == find_method(methods@, sel),
{
    let mut i: usize = 0;
    while i < methods.len()
        invariant
            i <= methods@.len(),
            find_method(methods@, sel) == find_method_from(methods@, sel, i as int),
        decreases methods@.len() - i,
    {
        if methods[i].selector == sel {
            return Some(methods[i].imp);
        }
        i += 1;
    }
    None
}

} // verus!
