//! The loader: maps the segments of an image into memory, binds every
//! imported symbol to a trampoline, patches the references to them and
//! registers the classes that the image defines.
//!
//! A load is all or nothing: it works on copies of the memory, the runtime
//! and the bridge, and puts them in place only when every step has
//! succeeded.

use crate::bridge::{bound, trampoline_addr, Bridge, Trampoline};
use crate::class::{ClassDef, ClassDefView, ClassId, Imp, Method};
use crate::error::{LoadError, ObjcError};
use crate::image::{
    in_file, parse, parse_spec, span_bytes, ClassEntry, Image, ImageView, MethodEntry,
    MethodTarget, Reloc, Segment, Span,
};
use crate::mem::{heap_region, GuestAddress, Mem, MemError, MemView, MemoryRegion, Owner};
use crate::names::copy_bytes;
use crate::registry::{binding_of, HostBinding, Registry};
use crate::runtime::{register_model, with_selector, Runtime, RuntimeView};
use crate::selector::selector_index;
use vstd::prelude::*;
use vstd::slice::slice_subrange;

verus! {

/// A failed load as contracts see it.
pub enum LoadFailure {
    UnresolvedSymbol(Seq<u8>),
    MalformedBinary,
    Class(ObjcError),
    Memory(MemError),
}

impl View for LoadError {
    type V = LoadFailure;

    open spec fn view(&self) -> LoadFailure {
        match self {
            LoadError::UnresolvedSymbol(name) => LoadFailure::UnresolvedSymbol(name@),
            LoadError::MalformedBinary => LoadFailure::MalformedBinary,
            LoadError::Class(e) => LoadFailure::Class(*e),
            LoadError::Memory(e) => LoadFailure::Memory(*e),
        }
    }
}

/// The bytes of a range of the file.
fn bytes_of<'a>(file: &'a [u8], span: Span) -> (bytes: &'a [u8])
    requires
        in_file(file@, span),
    ensures
        bytes@ == span_bytes(file@, span),
{
    let size: usize = file.len();
    let start: usize = span.off as usize;
    slice_subrange(file, start, start + span.len as usize)
}

/// The first import at or after `from` that the registry does not bind.
pub open spec fn first_unresolved(
    entries: Seq<(Seq<u8>, HostBinding)>,
    file: Seq<u8>,
    imports: Seq<Span>,
    from: int,
) -> Option<int>
    decreases imports.len() - from,
{
    if from < 0 || from >= imports.len() {
        None
    } else if binding_of(entries, span_bytes(file, imports[from])) is None {
        Some(from)
    } else {
        first_unresolved(entries, file, imports, from + 1)
    }
}

/// What each import is bound to, where the registry binds them all.
pub open spec fn bindings_of(
    entries: Seq<(Seq<u8>, HostBinding)>,
    file: Seq<u8>,
    imports: Seq<Span>,
) -> Seq<HostBinding> {
    Seq::new(imports.len(), |i: int| binding_of(entries, span_bytes(file, imports[i]))->Some_0)
}

/// Looks every import up in the registry. Fails with `UnresolvedSymbol` and
/// the name of the first import that the registry does not bind.
pub fn resolve_imports(file: &[u8], imports: &[Span], registry: &Registry) -> (r: Result<
    Vec<HostBinding>,
    LoadError,
>)
    requires
        forall|i: int| 0 <= i < imports@.len() ==> in_file(file@, #[trigger] imports@[i]),
    ensures
        match r {
            Ok(bindings) => {
                &&& first_unresolved(registry.entries(), file@, imports@, 0) is None
                &&& bindings@ == bindings_of(registry.entries(), file@, imports@)
            },
            Err(e) => {
                let missing = first_unresolved(registry.entries(), file@, imports@, 0);
                &&& missing is Some
                &&& e@ == LoadFailure::UnresolvedSymbol(
                    span_bytes(file@, imports@[missing->Some_0]),
                )
            },
        },
{
    let mut bindings: Vec<HostBinding> = Vec::new();
    let mut i: usize = 0;
    while i < imports.len()
        invariant
            forall|k: int| 0 <= k < imports@.len() ==> in_file(file@, #[trigger] imports@[k]),
            i <= imports@.len(),
            first_unresolved(registry.entries(), file@, imports@, 0) == first_unresolved(
                registry.entries(),
                file@,
                imports@,
                i as int,
            ),
            bindings@ == Seq::new(
                i as nat,
                |k: int| binding_of(registry.entries(), span_bytes(file@, imports@[k]))->Some_0,
            ),
        decreases imports@.len() - i,
    {
        let name = bytes_of(file, imports[i]);
        match registry.lookup(name) {
            Some(binding) => {
                bindings.push(binding);
            },
            None => {
                return Err(LoadError::UnresolvedSymbol(copy_bytes(name)));
            },
        }
        i += 1;
        assert(bindings@ =~= Seq::new(
            i as nat,
            |k: int| binding_of(registry.entries(), span_bytes(file@, imports@[k]))->Some_0,
        ));
    }
    assert(bindings@ =~= bindings_of(registry.entries(), file@, imports@));
    Ok(bindings)
}

/// The region that a segment is mapped as.
pub open spec fn segment_region(s: Segment) -> MemoryRegion {
    MemoryRegion { base: s.addr, len: s.size, perms: s.perms, owner: Owner::Loader }
}

/// What a segment holds once it is mapped: its part of the file, then
/// zeros.
pub open spec fn segment_content(file: Seq<u8>, s: Segment) -> Seq<u8> {
    Seq::new(
        s.size as nat,
        |i: int|
            if i < s.file.len {
                file[s.file.off + i]
            } else {
                0u8
            },
    )
}

/// What mapping one segment does to the memory: the region becomes live and
/// takes its content.
pub open spec fn map_segment_model(m: MemView, file: Seq<u8>, s: Segment) -> Result<
    MemView,
    MemError,
> {
    match m.map_region(segment_region(s)).1 {
        Ok(()) => Ok(
            m.map_region(segment_region(s)).0.write_bytes(s.addr, segment_content(file, s)).0,
        ),
        Err(e) => Err(e),
    }
}

/// What mapping the segments from `from` on does to the memory. The first
/// segment that cannot be mapped ends it.
pub open spec fn map_segments_model(m: MemView, file: Seq<u8>, segments: Seq<Segment>, from: int)
    -> Result<MemView, MemError>
    decreases segments.len() - from,
{
    if from < 0 || from >= segments.len() {
        Ok(m)
    } else {
        match map_segment_model(m, file, segments[from]) {
            Ok(next) => map_segments_model(next, file, segments, from + 1),
            Err(e) => Err(e),
        }
    }
}

/// Maps one segment at its address and fills it.
fn map_segment(mem: &mut Mem, file: &[u8], s: Segment) -> (r: Result<(), MemError>)
    requires
        old(mem).wf(),
        in_file(file@, s.file),
        s.file.len <= s.size,
    ensures
        final(mem).wf(),
        match map_segment_model(old(mem)@, file@, s) {
            Ok(next) => r is Ok && final(mem)@ == next,
            Err(e) => r == Err::<(), MemError>(e),
        },
{
    match mem.map_region(s.addr, s.size, s.perms, Owner::Loader) {
        Ok(()) => {},
        Err(e) => {
            return Err(e);
        },
    }
    let file_size: usize = file.len();
    let mut content: Vec<u8> = Vec::new();
    let mut i: u32 = 0;
    while i < s.size
        invariant
            file_size == file@.len(),
            in_file(file@, s.file),
            s.file.len <= s.size,
            i <= s.size,
            content@ == segment_content(file@, s).subrange(0, i as int),
        decreases s.size - i,
    {
        let byte: u8 = if i < s.file.len {
            file[s.file.off as usize + i as usize]
        } else {
            0
        };
        content.push(byte);
        i += 1;
        assert(content@ =~= segment_content(file@, s).subrange(0, i as int));
    }
    assert(content@ =~= segment_content(file@, s));
    proof {
        let region = segment_region(s);
        assert(mem@.live.contains(region) && region.covers(s.addr as int, s.size as int));
    }
    mem.write_bytes(s.addr, content.as_slice())
}

/// Maps the segments in order. The first one that cannot be mapped ends it;
/// the memory then holds what was mapped before.
fn map_segments(mem: &mut Mem, file: &[u8], segments: &[Segment]) -> (r: Result<(), MemError>)
    requires
        old(mem).wf(),
        forall|i: int|
            0 <= i < segments@.len() ==> in_file(file@, (#[trigger] segments@[i]).file)
                && segments@[i].file.len <= segments@[i].size,
    ensures
        final(mem).wf(),
        match map_segments_model(old(mem)@, file@, segments@, 0) {
            Ok(next) => r is Ok && final(mem)@ == next,
            Err(e) => r == Err::<(), MemError>(e),
        },
{
    let mut i: usize = 0;
    while i < segments.len()
        invariant
            mem.wf(),
            forall|k: int|
                0 <= k < segments@.len() ==> in_file(file@, (#[trigger] segments@[k]).file)
                    && segments@[k].file.len <= segments@[k].size,
            i <= segments@.len(),
            map_segments_model(old(mem)@, file@, segments@, 0) == map_segments_model(
                mem@,
                file@,
                segments@,
                i as int,
            ),
        decreases segments@.len() - i,
    {
        match map_segment(mem, file, segments[i]) {
            Ok(()) => {},
            Err(e) => {
                return Err(e);
            },
        }
        i += 1;
    }
    Ok(())
}

/// What setting up the trampolines does to the memory and to the bridge,
/// with the address of the first trampoline: four bytes of fresh storage
/// for each binding, and each trampoline bound. Without bindings nothing
/// happens and the address is null.
pub open spec fn trampolines_model(
    m: MemView,
    table: Map<GuestAddress, HostBinding>,
    bindings: Seq<HostBinding>,
) -> Result<(MemView, Map<GuestAddress, HostBinding>, GuestAddress), MemError> {
    if bindings.len() == 0 {
        Ok((m, table, 0))
    } else if 4 * bindings.len() > u32::MAX {
        Err(MemError::OutOfMemory)
    } else {
        let size = (4 * bindings.len()) as u32;
        match m.allocate(size, 4).1 {
            Ok(base) => Ok(
                (m.allocate(size, 4).0, bound(table, base, bindings, bindings.len() as int), base),
            ),
            Err(e) => Err(e),
        }
    }
}

/// Allocates the trampolines and binds them; answers the address of the
/// first. A failure changes nothing.
fn bind_trampolines(mem: &mut Mem, bridge: &mut Bridge, bindings: &[HostBinding]) -> (r: Result<
    GuestAddress,
    MemError,
>)
    requires
        old(mem).wf(),
    ensures
        final(mem).wf(),
        match trampolines_model(old(mem)@, old(bridge)@, bindings@) {
            Ok(done) => {
                &&& r == Ok::<GuestAddress, MemError>(done.2)
                &&& final(mem)@ == done.0
                &&& final(bridge)@ == done.1
                &&& done.2 + 4 * bindings@.len() <= u32::MAX
            },
            Err(e) => {
                &&& r == Err::<GuestAddress, MemError>(e)
                &&& final(mem)@ == old(mem)@
                &&& final(bridge)@ == old(bridge)@
            },
        },
{
    let count: usize = bindings.len();
    if count == 0 {
        return Ok(0);
    }
    if count > (u32::MAX / 4) as usize {
        return Err(MemError::OutOfMemory);
    }
    let size: u32 = 4 * (count as u32);
    let space: u32 = mem.size();
    let base: u32 = match mem.allocate(size, 4) {
        Ok(base) => base,
        Err(e) => {
            return Err(e);
        },
    };
    assert(crate::mem::at_least_one(size) == size && crate::mem::at_least_one(4) == 4);
    assert(old(mem)@.range_free(base as int, size as int));
    let mut i: usize = 0;
    while i < count
        invariant
            count == bindings@.len(),
            base + 4 * count <= u32::MAX,
            i <= count,
            bridge@ == bound(old(bridge)@, base, bindings@, i as int),
        decreases count - i,
    {
        let addr: u32 = base + 4 * (i as u32);
        bridge.bind(addr, bindings[i]);
        i += 1;
    }
    Ok(base)
}

/// What patching the relocations from `from` on does to the memory: each
/// place takes the address of the trampoline of its import. The first place
/// that cannot be written ends it.
pub open spec fn relocs_model(m: MemView, relocs: Seq<Reloc>, base: GuestAddress, from: int)
    -> Result<MemView, MemError>
    decreases relocs.len() - from,
{
    if from < 0 || from >= relocs.len() {
        Ok(m)
    } else {
        let patch = m.write_u32(relocs[from].addr, trampoline_addr(base, relocs[from].import as int));
        match patch.1 {
            Ok(()) => relocs_model(patch.0, relocs, base, from + 1),
            Err(e) => Err(e),
        }
    }
}

/// Patches the relocations in order.
fn apply_relocs(mem: &mut Mem, relocs: &[Reloc], base: GuestAddress, imports: usize) -> (r:
    Result<(), MemError>)
    requires
        old(mem).wf(),
        base + 4 * imports <= u32::MAX,
        forall|i: int| 0 <= i < relocs@.len() ==> (#[trigger] relocs@[i]).import < imports,
    ensures
        final(mem).wf(),
        match relocs_model(old(mem)@, relocs@, base, 0) {
            Ok(next) => r is Ok && final(mem)@ == next,
            Err(e) => r == Err::<(), MemError>(e),
        },
{
    let mut i: usize = 0;
    while i < relocs.len()
        invariant
            mem.wf(),
            base + 4 * imports <= u32::MAX,
            forall|k: int| 0 <= k < relocs@.len() ==> (#[trigger] relocs@[k]).import < imports,
            i <= relocs@.len(),
            relocs_model(old(mem)@, relocs@, base, 0) == relocs_model(
                mem@,
                relocs@,
                base,
                i as int,
            ),
        decreases relocs@.len() - i,
    {
        let reloc = relocs[i];
        let target: u32 = base + 4 * reloc.import;
        match mem.write_u32(reloc.addr, target) {
            Ok(()) => {},
            Err(e) => {
                return Err(e);
            },
        }
        i += 1;
    }
    Ok(())
}

/// What implements a method of an image once the image is loaded: guest
/// code where the image says so, else the trampoline of the import.
pub open spec fn imp_of(target: MethodTarget, base: GuestAddress) -> Imp {
    match target {
        MethodTarget::Code(addr) => Imp::Guest(addr),
        MethodTarget::Import(i) => Imp::Guest(trampoline_addr(base, i as int)),
    }
}

/// The runtime after the selectors of the first `upto` methods were
/// interned, with the method table that they make.
pub open spec fn methods_model(
    rt: RuntimeView,
    file: Seq<u8>,
    entries: Seq<MethodEntry>,
    base: GuestAddress,
    upto: int,
) -> (RuntimeView, Seq<Method>)
    decreases upto,
{
    if upto <= 0 {
        (rt, Seq::empty())
    } else {
        let before = methods_model(rt, file, entries, base, upto - 1);
        let name = span_bytes(file, entries[upto - 1].selector);
        (
            with_selector(before.0, name),
            before.1.push(
                Method {
                    selector: selector_index(before.0.selectors, name),
                    imp: imp_of(entries[upto - 1].target, base),
                },
            ),
        )
    }
}

/// Interning the selectors of methods changes nothing but the selectors.
pub proof fn lemma_methods_model_keeps(
    rt: RuntimeView,
    file: Seq<u8>,
    entries: Seq<MethodEntry>,
    base: GuestAddress,
    upto: int,
)
    ensures
        methods_model(rt, file, entries, base, upto).0 == (RuntimeView {
            selectors: methods_model(rt, file, entries, base, upto).0.selectors,
            ..rt
        }),
    decreases upto,
{
    if upto > 0 {
        lemma_methods_model_keeps(rt, file, entries, base, upto - 1);
    }
}

/// The definition that a class of an image is registered with.
pub open spec fn class_def_of(file: Seq<u8>, class: ClassEntry, methods: Seq<Method>)
    -> ClassDefView {
    ClassDefView {
        name: span_bytes(file, class.name),
        superclass: if class.superclass.len == 0 {
            None
        } else {
            Some(span_bytes(file, class.superclass))
        },
        instance_size: class.instance_size,
        methods,
        class_methods: Seq::empty(),
        forwarding: None,
    }
}

/// What registering one class of an image does to the runtime: the
/// selectors of its methods are interned, then the class is registered.
pub open spec fn class_model(
    rt: RuntimeView,
    file: Seq<u8>,
    class: ClassEntry,
    entries: Seq<MethodEntry>,
    base: GuestAddress,
) -> Result<RuntimeView, ObjcError> {
    let interned = methods_model(rt, file, entries, base, entries.len() as int);
    let registered = register_model(interned.0, class_def_of(file, class, interned.1));
    match registered.1 {
        Ok(_) => Ok(registered.0),
        Err(e) => Err(e),
    }
}

/// What registering the classes from `from` on does to the runtime. The
/// first class that cannot be registered ends it.
pub open spec fn classes_model(
    rt: RuntimeView,
    file: Seq<u8>,
    img: ImageView,
    base: GuestAddress,
    from: int,
) -> Result<RuntimeView, ObjcError>
    decreases img.classes.len() - from,
{
    if from < 0 || from >= img.classes.len() {
        Ok(rt)
    } else {
        match class_model(rt, file, img.classes[from], img.methods[from], base) {
            Ok(next) => classes_model(next, file, img, base, from + 1),
            Err(e) => Err(e),
        }
    }
}

/// Interns the selectors of the methods of one class and makes its method
/// table.
fn intern_methods(
    objc: &mut Runtime,
    file: &[u8],
    entries: &[MethodEntry],
    base: GuestAddress,
    imports: usize,
) -> (methods: Vec<Method>)
    requires
        old(objc).wf(),
        base + 4 * imports <= u32::MAX,
        forall|m: int|
            0 <= m < entries@.len() ==> in_file(file@, (#[trigger] entries@[m]).selector) && (
            entries@[m].target matches MethodTarget::Import(i) ==> i < imports),
    ensures
        final(objc).wf(),
        final(objc)@ == methods_model(old(objc)@, file@, entries@, base, entries@.len() as int).0,
        methods@ == methods_model(old(objc)@, file@, entries@, base, entries@.len() as int).1,
{
    let mut methods: Vec<Method> = Vec::new();
    let mut m: usize = 0;
    while m < entries.len()
        invariant
            objc.wf(),
            base + 4 * imports <= u32::MAX,
            forall|k: int|
                0 <= k < entries@.len() ==> in_file(file@, (#[trigger] entries@[k]).selector) && (
                entries@[k].target matches MethodTarget::Import(i) ==> i < imports),
            m <= entries@.len(),
            objc@ == methods_model(old(objc)@, file@, entries@, base, m as int).0,
            methods@ == methods_model(old(objc)@, file@, entries@, base, m as int).1,
        decreases entries@.len() - m,
    {
        let entry = entries[m];
        let selector = objc.selector(bytes_of(file, entry.selector));
        let imp = match entry.target {
            MethodTarget::Code(addr) => Imp::Guest(addr),
            MethodTarget::Import(i) => Imp::Guest(base + 4 * i),
        };
        methods.push(Method { selector, imp });
        m += 1;
    }
    methods
}

/// Registers the classes of an image in order; answers their identities.
fn register_classes(
    objc: &mut Runtime,
    file: &[u8],
    image: &Image,
    base: GuestAddress,
) -> (r: Result<Vec<ClassId>, ObjcError>)
    requires
        old(objc).wf(),
        crate::image::tables_ok(file@, image@),
        base + 4 * image@.imports.len() <= u32::MAX,
    ensures
        final(objc).wf(),
        match classes_model(old(objc)@, file@, image@, base, 0) {
            Ok(next) => {
                &&& r is Ok
                &&& final(objc)@ == next
                &&& r->Ok_0@ == Seq::new(
                    image@.classes.len(),
                    |i: int| (old(objc)@.classes.len() + i) as usize,
                )
            },
            Err(e) => r == Err::<Vec<ClassId>, ObjcError>(e),
        },
{
    let imports: usize = image.imports.len();
    let first: usize = objc.class_count();
    let mut ids: Vec<ClassId> = Vec::new();
    let mut c: usize = 0;
    while c < image.classes.len()
        invariant
            objc.wf(),
            crate::image::tables_ok(file@, image@),
            imports == image@.imports.len(),
            base + 4 * imports <= u32::MAX,
            first == old(objc)@.classes.len(),
            c <= image@.classes.len(),
            objc@.classes.len() == first + c,
            classes_model(old(objc)@, file@, image@, base, 0) == classes_model(
                objc@,
                file@,
                image@,
                base,
                c as int,
            ),
            ids@ == Seq::new(c as nat, |i: int| (first + i) as usize),
        decreases image@.classes.len() - c,
    {
        let class = image.classes[c];
        assert(image@.methods[c as int] == image.methods@[c as int]@);
        assert forall|m: int| 0 <= m < image.methods@[c as int]@.len() implies in_file(
            file@,
            (#[trigger] image.methods@[c as int]@[m]).selector,
        ) && (image.methods@[c as int]@[m].target matches MethodTarget::Import(i) ==> i
            < imports) by {
            assert(crate::image::method_entry_ok(file@, image@, image@.methods[c as int][m]));
        }
        proof {
            lemma_methods_model_keeps(
                objc@,
                file@,
                image@.methods[c as int],
                base,
                image@.methods[c as int].len() as int,
            );
        }
        let methods = intern_methods(objc, file, image.methods[c].as_slice(), base, imports);
        let superclass: Option<Vec<u8>> = if class.superclass.len == 0 {
            None
        } else {
            Some(copy_bytes(bytes_of(file, class.superclass)))
        };
        let def = ClassDef {
            name: copy_bytes(bytes_of(file, class.name)),
            superclass,
            instance_size: class.instance_size,
            methods,
            class_methods: Vec::new(),
            forwarding: None,
        };
        assert(def@ =~= class_def_of(file@, class, methods@)) by {
            assert(def@.class_methods =~= Seq::<Method>::empty());
        }
        match objc.register_class(def) {
            Ok(id) => {
                ids.push(id);
            },
            Err(e) => {
                return Err(e);
            },
        }
        c += 1;
        assert(ids@ =~= Seq::new(c as nat, |i: int| (first + i) as usize));
    }
    Ok(ids)
}

/// What a loaded image owns.
pub struct LoadedImage {
    /// The regions of its segments, in the order of the segment table, and
    /// after them the region of its trampolines, if it has any.
    pub regions: Vec<MemoryRegion>,
    /// One trampoline for each imported symbol, in the order of the import
    /// table.
    pub trampolines: Vec<Trampoline>,
    /// The classes that it registered, in the order of the class table.
    pub classes: Vec<ClassId>,
}

/// The state after a load, with the address of the first trampoline.
#[verifier::ext_equal]
pub struct Loaded {
    pub mem: MemView,
    pub objc: RuntimeView,
    pub bridge: Map<GuestAddress, HostBinding>,
    pub base: GuestAddress,
}

/// What loading `file` does, step by step: parse; resolve every import; map
/// the segments; set up the trampolines; patch the relocations; register the
/// classes. The first step that fails ends the load with its error.
pub open spec fn load_model(
    file: Seq<u8>,
    entries: Seq<(Seq<u8>, HostBinding)>,
    m: MemView,
    rt: RuntimeView,
    table: Map<GuestAddress, HostBinding>,
) -> Result<Loaded, LoadFailure> {
    match parse_spec(file) {
        None => Err(LoadFailure::MalformedBinary),
        Some(img) => match first_unresolved(entries, file, img.imports, 0) {
            Some(i) => Err(LoadFailure::UnresolvedSymbol(span_bytes(file, img.imports[i]))),
            None => match map_segments_model(m, file, img.segments, 0) {
                Err(e) => Err(LoadFailure::Memory(e)),
                Ok(mapped) => match trampolines_model(
                    mapped,
                    table,
                    bindings_of(entries, file, img.imports),
                ) {
                    Err(e) => Err(LoadFailure::Memory(e)),
                    Ok(bound) => match relocs_model(bound.0, img.relocs, bound.2, 0) {
                        Err(e) => Err(LoadFailure::Memory(e)),
                        Ok(patched) => match classes_model(rt, file, img, bound.2, 0) {
                            Err(e) => Err(LoadFailure::Class(e)),
                            Ok(registered) => Ok(
                                Loaded {
                                    mem: patched,
                                    objc: registered,
                                    bridge: bound.1,
                                    base: bound.2,
                                },
                            ),
                        },
                    },
                },
            },
        },
    }
}

/// The regions that a loaded image owns.
pub open spec fn image_regions(img: ImageView, base: GuestAddress) -> Seq<MemoryRegion> {
    let segments = Seq::new(img.segments.len(), |i: int| segment_region(img.segments[i]));
    if img.imports.len() == 0 {
        segments
    } else {
        segments.push(heap_region(base, 4 * img.imports.len() as int))
    }
}

/// The trampolines that a loaded image owns.
pub open spec fn image_trampolines(bindings: Seq<HostBinding>, base: GuestAddress) -> Seq<
    Trampoline,
> {
    Seq::new(
        bindings.len(),
        |i: int| Trampoline { addr: trampoline_addr(base, i), binding: bindings[i] },
    )
}

/// Loads an image: see [`load_model`] for the steps. A load that fails
/// leaves the memory, the runtime and the bridge as they were: no region
/// mapped, no class registered, no trampoline bound.
pub fn load(
    file: &[u8],
    registry: &Registry,
    mem: &mut Mem,
    objc: &mut Runtime,
    bridge: &mut Bridge,
) -> (r: Result<LoadedImage, LoadError>)
    requires
        old(mem).wf(),
        old(objc).wf(),
    ensures
        final(mem).wf(),
        final(objc).wf(),
        match load_model(file@, registry.entries(), old(mem)@, old(objc)@, old(bridge)@) {
            Ok(done) => {
                let img = parse_spec(file@)->Some_0;
                &&& r is Ok
                &&& final(mem)@ == done.mem
                &&& final(objc)@ == done.objc
                &&& final(bridge)@ == done.bridge
                &&& r->Ok_0.regions@ == image_regions(img, done.base)
                &&& r->Ok_0.trampolines@ == image_trampolines(
                    bindings_of(registry.entries(), file@, img.imports),
                    done.base,
                )
                &&& r->Ok_0.classes@ == Seq::new(
                    img.classes.len(),
                    |i: int| (old(objc)@.classes.len() + i) as usize,
                )
            },
            Err(failure) => {
                &&& r is Err
                &&& r->Err_0@ == failure
                &&& final(mem)@ == old(mem)@
                &&& final(objc)@ == old(objc)@
                &&& final(bridge)@ == old(bridge)@
            },
        },
{
    let image = match parse(file) {
        Ok(image) => image,
        Err(e) => {
            return Err(e);
        },
    };
    let bindings = match resolve_imports(file, image.imports.as_slice(), registry) {
        Ok(bindings) => bindings,
        Err(e) => {
            return Err(e);
        },
    };
    let mut new_mem = mem.snapshot();
    let mut new_objc = objc.snapshot();
    let mut new_bridge = bridge.snapshot();
    match map_segments(&mut new_mem, file, image.segments.as_slice()) {
        Ok(()) => {},
        Err(e) => {
            return Err(LoadError::Memory(e));
        },
    }
    let base: u32 = match bind_trampolines(&mut new_mem, &mut new_bridge, bindings.as_slice()) {
        Ok(base) => base,
        Err(e) => {
            return Err(LoadError::Memory(e));
        },
    };
    match apply_relocs(&mut new_mem, image.relocs.as_slice(), base, bindings.len()) {
        Ok(()) => {},
        Err(e) => {
            return Err(LoadError::Memory(e));
        },
    }
    let classes = match register_classes(&mut new_objc, file, &image, base) {
        Ok(classes) => classes,
        Err(e) => {
            return Err(LoadError::Class(e));
        },
    };
    let mut regions: Vec<MemoryRegion> = Vec::new();
    let mut i: usize = 0;
    while i < image.segments.len()
        invariant
            i <= image@.segments.len(),
            regions@ == Seq::new(i as nat, |k: int| segment_region(image@.segments[k])),
        decreases image@.segments.len() - i,
    {
        let s = image.segments[i];
        regions.push(
            MemoryRegion { base: s.addr, len: s.size, perms: s.perms, owner: Owner::Loader },
        );
        i += 1;
        assert(regions@ =~= Seq::new(i as nat, |k: int| segment_region(image@.segments[k])));
    }
    if bindings.len() > 0 {
        regions.push(
            MemoryRegion {
                base,
                len: 4 * (bindings.len() as u32),
                perms: crate::mem::Permissions { read: true, write: true, execute: false },
                owner: Owner::Heap,
            },
        );
    }
    assert(regions@ =~= image_regions(image@, base));
    let mut trampolines: Vec<Trampoline> = Vec::new();
    let mut t: usize = 0;
    while t < bindings.len()
        invariant
            base + 4 * bindings@.len() <= u32::MAX,
            t <= bindings@.len(),
            trampolines@ == Seq::new(
                t as nat,
                |k: int| Trampoline { addr: trampoline_addr(base, k), binding: bindings@[k] },
            ),
        decreases bindings@.len() - t,
    {
        trampolines.push(Trampoline { addr: base + 4 * (t as u32), binding: bindings[t] });
        t += 1;
        assert(trampolines@ =~= Seq::new(
            t as nat,
            |k: int| Trampoline { addr: trampoline_addr(base, k), binding: bindings@[k] },
        ));
    }
    assert(trampolines@ =~= image_trampolines(bindings@, base));
    *mem = new_mem;
    *objc = new_objc;
    *bridge = new_bridge;
    Ok(LoadedImage { regions, trampolines, classes })
}

} // verus!
