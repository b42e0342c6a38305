use touchhle::bridge::{Bridge, Invocation, Trampoline};
use touchhle::class::Imp;
use touchhle::environment::{Answer, Environment};
use touchhle::error::{LoadError, ObjcError};
use touchhle::image::{parse, MethodTarget, IMAGE_MAGIC};
use touchhle::loader::load;
use touchhle::mem::{Mem, MemError, Owner};
use touchhle::registry::{HostBinding, Registry};
use touchhle::runtime::{Dispatch, Runtime};

fn word(out: &mut Vec<u8>, value: u32) {
    out.extend_from_slice(&value.to_le_bytes());
}

struct TestSegment {
    addr: u32,
    size: u32,
    data: Vec<u8>,
    flags: u32,
}

struct TestClass {
    name: &'static str,
    superclass: &'static str,
    instance_size: u32,
    // selector, tag, value
    methods: Vec<(&'static str, u32, u32)>,
}

fn build_image(
    segments: &[TestSegment],
    imports: &[&str],
    relocs: &[(u32, u32)],
    classes: &[TestClass],
) -> Vec<u8> {
    let tables = 20 + 20 * segments.len() + 8 * imports.len() + 8 * relocs.len() + 28 * classes.len();
    let mut blob: Vec<u8> = Vec::new();
    let mut place = |bytes: &[u8]| -> (u32, u32) {
        let off = (tables + blob.len()) as u32;
        blob.extend_from_slice(bytes);
        (off, bytes.len() as u32)
    };
    let mut out: Vec<u8> = Vec::new();
    word(&mut out, IMAGE_MAGIC);
    word(&mut out, segments.len() as u32);
    word(&mut out, imports.len() as u32);
    word(&mut out, relocs.len() as u32);
    word(&mut out, classes.len() as u32);
    for s in segments {
        let (off, len) = place(&s.data);
        word(&mut out, s.addr);
        word(&mut out, s.size);
        word(&mut out, off);
        word(&mut out, len);
        word(&mut out, s.flags);
    }
    for name in imports {
        let (off, len) = place(name.as_bytes());
        word(&mut out, off);
        word(&mut out, len);
    }
    for &(addr, import) in relocs {
        word(&mut out, addr);
        word(&mut out, import);
    }
    for c in classes {
        let (name_off, name_len) = place(c.name.as_bytes());
        let (super_off, super_len) = place(c.superclass.as_bytes());
        let mut table: Vec<u8> = Vec::new();
        for &(selector, tag, value) in &c.methods {
            let (off, len) = place(selector.as_bytes());
            word(&mut table, off);
            word(&mut table, len);
            word(&mut table, tag);
            word(&mut table, value);
        }
        let (methods_off, _) = place(&table);
        word(&mut out, name_off);
        word(&mut out, name_len);
        word(&mut out, super_off);
        word(&mut out, super_len);
        word(&mut out, c.instance_size);
        word(&mut out, c.methods.len() as u32);
        word(&mut out, methods_off);
    }
    assert_eq!(out.len(), tables);
    out.extend_from_slice(&blob);
    out
}

fn foo_image(import: &'static str) -> Vec<u8> {
    build_image(
        &[TestSegment { addr: 0x100, size: 0x20, data: vec![1, 2, 3, 4, 5, 6, 7, 8], flags: 5 }],
        &[import],
        &[(0x104, 0)],
        &[TestClass {
            name: "Foo",
            superclass: "",
            instance_size: 8,
            methods: vec![("bar", 1, 0), ("baz", 0, 0x110)],
        }],
    )
}

#[test]
fn loaded_method_bound_to_host_constant_returns_it() {
    let mut env = Environment::new(0x1000);
    assert!(env.registry.register(b"kValue", HostBinding::Constant(42)));
    let loaded = env.load(&foo_image("kValue")).unwrap();
    assert_eq!(loaded.classes, vec![0]);
    let foo = env.objc.find_class(b"Foo").unwrap();
    let obj = env.objc.alloc_object(foo, &mut env.mem).unwrap();
    assert_eq!(env.send(obj, "bar"), Ok(Answer::Invoke(Invocation::Value(42))));
    assert_eq!(env.send(obj, "baz"), Ok(Answer::Invoke(Invocation::Guest(0x110))));
    assert_eq!(env.send(0, "bar"), Ok(Answer::Invoke(Invocation::Value(0))));
}

#[test]
fn load_maps_segments_binds_trampolines_and_patches_references() {
    let mut mem = Mem::new(0x1000);
    let mut objc = Runtime::new();
    let mut bridge = Bridge::new();
    let mut registry = Registry::new();
    registry.register(b"kValue", HostBinding::Constant(42));
    registry.register(b"_puts", HostBinding::Function(7));
    let file = build_image(
        &[
            TestSegment { addr: 0x100, size: 0x20, data: vec![1, 2, 3, 4, 5, 6, 7, 8], flags: 5 },
            TestSegment { addr: 0x200, size: 0x10, data: vec![], flags: 3 },
        ],
        &["_puts", "kValue"],
        &[(0x104, 1), (0x200, 0)],
        &[],
    );
    let loaded = load(&file, &registry, &mut mem, &mut objc, &mut bridge).unwrap();
    // The trampolines take the lowest free range: two of them, four bytes each.
    assert_eq!(
        loaded.trampolines,
        vec![
            Trampoline { addr: 4, binding: HostBinding::Function(7) },
            Trampoline { addr: 8, binding: HostBinding::Constant(42) },
        ]
    );
    assert_eq!(loaded.regions.len(), 3);
    assert_eq!((loaded.regions[0].base, loaded.regions[0].len), (0x100, 0x20));
    assert_eq!(loaded.regions[0].owner, Owner::Loader);
    assert!(loaded.regions[0].perms.read && !loaded.regions[0].perms.write);
    assert!(loaded.regions[0].perms.execute);
    assert!(loaded.regions[1].perms.read && loaded.regions[1].perms.write);
    assert_eq!((loaded.regions[2].base, loaded.regions[2].len), (4, 8));
    assert_eq!(mem.read_u32(0x100), Ok(0x0403_0201));
    assert_eq!(mem.read_u32(0x104), Ok(8));
    assert_eq!(mem.read_u32(0x108), Ok(0));
    assert_eq!(mem.read_u32(0x200), Ok(4));
    assert_eq!(bridge.on_trap(4), Some(HostBinding::Function(7)));
    assert_eq!(bridge.on_trap(8), Some(HostBinding::Constant(42)));
    assert_eq!(bridge.on_trap(12), None);
    assert_eq!(bridge.on_trap(0x100), None);
    assert_eq!(bridge.invoke(Imp::Guest(4)), Invocation::Host(7));
    assert_eq!(bridge.invoke(Imp::Host(3)), Invocation::Host(3));
}

#[test]
fn unresolved_import_fails_load_and_leaves_nothing() {
    let mut env = Environment::new(0x1000);
    env.registry.register(b"kValue", HostBinding::Constant(42));
    let r = env.load(&foo_image("doesNotExist"));
    assert_eq!(r.err(), Some(LoadError::UnresolvedSymbol(b"doesNotExist".to_vec())));
    assert_eq!(env.objc.class_count(), 0);
    assert_eq!(env.objc.find_class(b"Foo"), None);
    assert!(env.mem.region_at(0x100).is_none());
    assert_eq!(env.mem.read_u32(0x100), Err(MemError::OutOfBounds));
    assert_eq!(env.mem.allocate(4, 4), Ok(4));
    assert_eq!(env.bridge.on_trap(4), None);
}

#[test]
fn failing_class_registration_rolls_the_image_back() {
    let mut env = Environment::new(0x1000);
    env.registry.register(b"kValue", HostBinding::Constant(42));
    let file = build_image(
        &[TestSegment { addr: 0x100, size: 0x20, data: vec![9; 4], flags: 7 }],
        &["kValue"],
        &[(0x100, 0)],
        &[
            TestClass { name: "A", superclass: "", instance_size: 4, methods: vec![] },
            TestClass { name: "B", superclass: "Missing", instance_size: 4, methods: vec![] },
        ],
    );
    let r = env.load(&file);
    assert_eq!(r.err(), Some(LoadError::Class(ObjcError::UnknownSuperclass)));
    assert_eq!(env.objc.class_count(), 0);
    assert!(env.mem.region_at(0x100).is_none());
    assert_eq!(env.bridge.on_trap(4), None);

    let twice = build_image(
        &[],
        &[],
        &[],
        &[
            TestClass { name: "A", superclass: "", instance_size: 4, methods: vec![] },
            TestClass { name: "A", superclass: "", instance_size: 4, methods: vec![] },
        ],
    );
    assert_eq!(env.load(&twice).err(), Some(LoadError::Class(ObjcError::DuplicateClass)));
    assert_eq!(env.objc.class_count(), 0);
}

#[test]
fn overlapping_segments_and_bad_relocations_fail_the_load() {
    let mut env = Environment::new(0x1000);
    env.registry.register(b"kValue", HostBinding::Constant(42));
    let overlapping = build_image(
        &[
            TestSegment { addr: 0x100, size: 0x20, data: vec![], flags: 1 },
            TestSegment { addr: 0x110, size: 0x20, data: vec![], flags: 1 },
        ],
        &[],
        &[],
        &[],
    );
    assert_eq!(env.load(&overlapping).err(), Some(LoadError::Memory(MemError::OutOfMemory)));
    assert!(env.mem.region_at(0x100).is_none());
    let outside = build_image(
        &[TestSegment { addr: 0xff0, size: 0x20, data: vec![], flags: 1 }],
        &[],
        &[],
        &[],
    );
    assert_eq!(env.load(&outside).err(), Some(LoadError::Memory(MemError::OutOfBounds)));
    let stray = build_image(
        &[TestSegment { addr: 0x100, size: 0x20, data: vec![], flags: 1 }],
        &["kValue"],
        &[(0x300, 0)],
        &[],
    );
    assert_eq!(env.load(&stray).err(), Some(LoadError::Memory(MemError::OutOfBounds)));
    let odd = build_image(
        &[TestSegment { addr: 0x100, size: 0x20, data: vec![], flags: 1 }],
        &["kValue"],
        &[(0x102, 0)],
        &[],
    );
    assert_eq!(env.load(&odd).err(), Some(LoadError::Memory(MemError::Misaligned)));
    assert!(env.mem.region_at(0x100).is_none());
    assert_eq!(env.mem.allocate(4, 4), Ok(4));
}

#[test]
fn malformed_files_are_refused() {
    assert_eq!(parse(&[]).err(), Some(LoadError::MalformedBinary));
    let good = foo_image("kValue");
    assert!(parse(&good).is_ok());
    let mut bad_magic = good.clone();
    bad_magic[0] ^= 1;
    assert_eq!(parse(&bad_magic).err(), Some(LoadError::MalformedBinary));
    // One class more than the file holds.
    let mut truncated = good.clone();
    truncated.truncate(40);
    assert_eq!(parse(&truncated).err(), Some(LoadError::MalformedBinary));
    // Unknown segment flag.
    let mut flags = good.clone();
    flags[20 + 16] = 8;
    assert_eq!(parse(&flags).err(), Some(LoadError::MalformedBinary));
    // File part longer than the segment.
    let mut long = good.clone();
    long[20 + 4] = 4;
    assert_eq!(parse(&long).err(), Some(LoadError::MalformedBinary));
    // Relocation of an import that is not there.
    let mut reloc = good.clone();
    reloc[20 + 20 + 8 + 4] = 1;
    assert_eq!(parse(&reloc).err(), Some(LoadError::MalformedBinary));
    // Method with an unknown tag.
    let bad_tag = build_image(
        &[],
        &[],
        &[],
        &[TestClass { name: "A", superclass: "", instance_size: 0, methods: vec![("m", 2, 0)] }],
    );
    assert_eq!(parse(&bad_tag).err(), Some(LoadError::MalformedBinary));
    let bad_import = build_image(
        &[],
        &[],
        &[],
        &[TestClass { name: "A", superclass: "", instance_size: 0, methods: vec![("m", 1, 0)] }],
    );
    assert_eq!(parse(&bad_import).err(), Some(LoadError::MalformedBinary));
    let mut env = Environment::new(0x100);
    assert_eq!(env.load(&bad_magic).err(), Some(LoadError::MalformedBinary));
}

#[test]
fn parse_reads_the_tables() {
    let image = parse(&foo_image("kValue")).unwrap();
    assert_eq!(image.segments.len(), 1);
    assert_eq!((image.segments[0].addr, image.segments[0].size), (0x100, 0x20));
    assert_eq!(image.segments[0].file.len, 8);
    assert_eq!(image.imports.len(), 1);
    assert_eq!(image.imports[0].len, 6);
    assert_eq!(image.relocs.len(), 1);
    assert_eq!((image.relocs[0].addr, image.relocs[0].import), (0x104, 0));
    assert_eq!(image.classes.len(), 1);
    assert_eq!(image.classes[0].instance_size, 8);
    assert_eq!(image.classes[0].superclass.len, 0);
    assert_eq!(image.methods.len(), 1);
    assert_eq!(image.methods[0].len(), 2);
    assert_eq!(image.methods[0][0].target, MethodTarget::Import(0));
    assert_eq!(image.methods[0][1].target, MethodTarget::Code(0x110));
}

#[test]
fn image_classes_inherit_from_registered_classes() {
    let mut env = Environment::new(0x1000);
    let file = build_image(
        &[],
        &[],
        &[],
        &[
            TestClass {
                name: "Base",
                superclass: "",
                instance_size: 4,
                methods: vec![("hello", 0, 0x500)],
            },
            TestClass {
                name: "Derived",
                superclass: "Base",
                instance_size: 8,
                methods: vec![("other", 0, 0x600)],
            },
        ],
    );
    let loaded = env.load(&file).unwrap();
    assert_eq!(loaded.classes, vec![0, 1]);
    assert!(loaded.trampolines.is_empty());
    assert!(loaded.regions.is_empty());
    let hello = env.objc.find_selector(b"hello").unwrap();
    let derived = env.objc.find_class(b"Derived").unwrap();
    let obj = env.objc.alloc_object(derived, &mut env.mem).unwrap();
    assert_eq!(
        env.objc.send_message(obj, hello),
        Ok(Dispatch::Invoke { imp: Imp::Guest(0x500), class: 0 })
    );
    assert_eq!(
        env.objc.send_class_message(derived, hello),
        Err(ObjcError::DoesNotUnderstand { selector: hello, class: derived })
    );
}
