//! The guest executable container, and its parser.
//!
//! All numbers are 32-bit little-endian words. A file starts with a header
//! of five words: the magic number, then the number of segments, of
//! imported symbols, of relocations and of classes. The four tables follow
//! in that order, without gaps:
//!
//! - a segment is five words: address, size, file offset, file size,
//!   flags;
//! - an import is two words: name offset, name length;
//! - a relocation is two words: address to patch, number of the import;
//! - a class is seven words: name offset, name length, superclass name
//!   offset, superclass name length, instance size, number of methods,
//!   offset of the methods.
//!
//! A method is four words: selector name offset and length, tag, value.
//! With the tag 0 the method is guest code at the address `value`; with the
//! tag 1 it is the import with the number `value`. Segment flags are read
//! (1), write (2), execute (4). A class with a superclass name of length 0
//! is a root class.

use crate::error::LoadError;
use crate::mem::{le_word, Permissions};
use vstd::prelude::*;

verus! {

/// The first word of every image.
pub const IMAGE_MAGIC: u32 = 0x4547_4D49;

/// A range of the file.
#[derive(Clone, Copy, Debug, PartialEq, Eq, Structural)]
pub struct Span {
    pub off: u32,
    pub len: u32,
}

/// A loadable segment: `size` bytes at the guest address `addr`, the first
/// `file.len` of them taken from the file and the rest zero.
#[derive(Clone, Copy, Debug, PartialEq, Eq, Structural)]
pub struct Segment {
    pub addr: u32,
    pub size: u32,
    pub file: Span,
    pub perms: Permissions,
}

/// A place in a segment that holds the address of an imported symbol.
#[derive(Clone, Copy, Debug, PartialEq, Eq, Structural)]
pub struct Reloc {
    pub addr: u32,
    pub import: u32,
}

/// What implements a method of a class in an image.
#[derive(Clone, Copy, Debug, PartialEq, Eq, Structural)]
pub enum MethodTarget {
    /// Guest code at this address.
    Code(u32),
    /// The imported symbol with this number.
    Import(u32),
}

/// A method of a class in an image.
#[derive(Clone, Copy, Debug, PartialEq, Eq, Structural)]
pub struct MethodEntry {
    pub selector: Span,
    pub target: MethodTarget,
}

/// A class that an image defines.
#[derive(Clone, Copy, Debug, PartialEq, Eq, Structural)]
pub struct ClassEntry {
    pub name: Span,
    /// Name of the superclass; of length 0 for a root class.
    pub superclass: Span,
    pub instance_size: u32,
    /// Where the methods stand in the file: `len` counts methods, not bytes.
    pub methods: Span,
}

/// The tables of an image.
pub struct Image {
    pub segments: Vec<Segment>,
    /// The names of the imported symbols.
    pub imports: Vec<Span>,
    pub relocs: Vec<Reloc>,
    pub classes: Vec<ClassEntry>,
    /// The methods of each class, in the order of `classes`.
    pub methods: Vec<Vec<MethodEntry>>,
}

/// The tables of an image as contracts see them.
#[verifier::ext_equal]
pub struct ImageView {
    pub segments: Seq<Segment>,
    pub imports: Seq<Span>,
    pub relocs: Seq<Reloc>,
    pub classes: Seq<ClassEntry>,
    pub methods: Seq<Seq<MethodEntry>>,
}

impl View for Image {
    type V = ImageView;

    open spec fn view(&self) -> ImageView {
        ImageView {
            segments: self.segments@,
            imports: self.imports@,
            relocs: self.relocs@,
            classes: self.classes@,
            methods: Seq::new(self.methods@.len(), |i: int| self.methods@[i]@),
        }
    }
}

/// The word that stands at `off`.
#[verifier::opaque]
pub open spec fn word_at(bytes: Seq<u8>, off: int) -> u32 {
    le_word(bytes[off], bytes[off + 1], bytes[off + 2], bytes[off + 3]) as u32
}

/// Whether the range lies inside the file.
pub open spec fn in_file(bytes: Seq<u8>, span: Span) -> bool {
    span.off + span.len <= bytes.len()
}

/// The bytes of a range of the file.
pub open spec fn span_bytes(bytes: Seq<u8>, span: Span) -> Seq<u8> {
    bytes.subrange(span.off as int, span.off + span.len)
}

/// The permissions that segment flags stand for.
pub open spec fn perms_of(flags: u32) -> Permissions {
    Permissions { read: flags % 2 == 1, write: (flags / 2) % 2 == 1, execute: flags / 4 == 1 }
}

/// Number of segments, imports, relocations and classes (`which` from 0 to
/// 3) that the header announces.
pub open spec fn count_of(bytes: Seq<u8>, which: int) -> int {
    word_at(bytes, 4 + 4 * which) as int
}

/// Where the segment table starts.
pub open spec fn segments_at(bytes: Seq<u8>) -> int {
    20
}

/// Where the import table starts.
pub open spec fn imports_at(bytes: Seq<u8>) -> int {
    segments_at(bytes) + 20 * count_of(bytes, 0)
}

/// Where the relocation table starts.
pub open spec fn relocs_at(bytes: Seq<u8>) -> int {
    imports_at(bytes) + 8 * count_of(bytes, 1)
}

/// Where the class table starts.
pub open spec fn classes_at(bytes: Seq<u8>) -> int {
    relocs_at(bytes) + 8 * count_of(bytes, 2)
}

/// Where the class table ends.
pub open spec fn tables_end(bytes: Seq<u8>) -> int {
    classes_at(bytes) + 28 * count_of(bytes, 3)
}

/// Whether the file starts with a header whose tables lie inside the file.
pub open spec fn header_ok(bytes: Seq<u8>) -> bool {
    &&& bytes.len() >= 20
    &&& word_at(bytes, 0) == IMAGE_MAGIC
    &&& tables_end(bytes) <= bytes.len()
}

/// Entry `i` of the segment table.
pub open spec fn segment_at(bytes: Seq<u8>, i: int) -> Segment {
    let at = segments_at(bytes) + 20 * i;
    Segment {
        addr: word_at(bytes, at),
        size: word_at(bytes, at + 4),
        file: Span { off: word_at(bytes, at + 8), len: word_at(bytes, at + 12) },
        perms: perms_of(word_at(bytes, at + 16)),
    }
}

/// Whether entry `i` of the segment table is in order: known flags only, and
/// the file part lies inside the file and is no longer than the segment.
pub open spec fn segment_ok(bytes: Seq<u8>, i: int) -> bool {
    let s = segment_at(bytes, i);
    &&& word_at(bytes, segments_at(bytes) + 20 * i + 16) < 8
    &&& in_file(bytes, s.file)
    &&& s.file.len <= s.size
}

/// Entry `i` of the import table.
pub open spec fn import_at(bytes: Seq<u8>, i: int) -> Span {
    let at = imports_at(bytes) + 8 * i;
    Span { off: word_at(bytes, at), len: word_at(bytes, at + 4) }
}

/// Entry `i` of the relocation table.
pub open spec fn reloc_at(bytes: Seq<u8>, i: int) -> Reloc {
    let at = relocs_at(bytes) + 8 * i;
    Reloc { addr: word_at(bytes, at), import: word_at(bytes, at + 4) }
}

/// Entry `i` of the class table.
pub open spec fn class_at(bytes: Seq<u8>, i: int) -> ClassEntry {
    let at = classes_at(bytes) + 28 * i;
    ClassEntry {
        name: Span { off: word_at(bytes, at), len: word_at(bytes, at + 4) },
        superclass: Span { off: word_at(bytes, at + 8), len: word_at(bytes, at + 12) },
        instance_size: word_at(bytes, at + 16),
        methods: Span { off: word_at(bytes, at + 24), len: word_at(bytes, at + 20) },
    }
}

/// Whether entry `i` of the class table is in order: both names and the
/// methods lie inside the file.
pub open spec fn class_ok(bytes: Seq<u8>, i: int) -> bool {
    let c = class_at(bytes, i);
    &&& in_file(bytes, c.name)
    &&& in_file(bytes, c.superclass)
    &&& c.methods.off + 16 * c.methods.len <= bytes.len()
}

/// Method `m` of the methods that start at `off`.
pub open spec fn method_at(bytes: Seq<u8>, off: int, m: int) -> MethodEntry {
    let at = off + 16 * m;
    MethodEntry {
        selector: Span { off: word_at(bytes, at), len: word_at(bytes, at + 4) },
        target: if word_at(bytes, at + 8) == 0 {
            MethodTarget::Code(word_at(bytes, at + 12))
        } else {
            MethodTarget::Import(word_at(bytes, at + 12))
        },
    }
}

/// Whether method `m` of the methods that start at `off` is in order: its
/// selector lies inside the file, its tag is known, and an import that it
/// names is in the import table.
pub open spec fn method_ok(bytes: Seq<u8>, off: int, m: int) -> bool {
    let at = off + 16 * m;
    &&& in_file(bytes, method_at(bytes, off, m).selector)
    &&& word_at(bytes, at + 8) <= 1
    &&& word_at(bytes, at + 8) == 1 ==> word_at(bytes, at + 12) < count_of(bytes, 1)
}

/// The methods of class `c`.
pub open spec fn methods_of(bytes: Seq<u8>, c: int) -> Seq<MethodEntry> {
    let class = class_at(bytes, c);
    Seq::new(class.methods.len as nat, |m: int| method_at(bytes, class.methods.off as int, m))
}

/// Whether the file is a well-formed image.
pub open spec fn well_formed(bytes: Seq<u8>) -> bool {
    &&& header_ok(bytes)
    &&& forall|i: int| 0 <= i < count_of(bytes, 0) ==> #[trigger] segment_ok(bytes, i)
    &&& forall|i: int| 0 <= i < count_of(bytes, 1) ==> in_file(bytes, #[trigger] import_at(bytes, i))
    &&& forall|i: int|
        0 <= i < count_of(bytes, 2) ==> (#[trigger] reloc_at(bytes, i)).import < count_of(bytes, 1)
    &&& forall|i: int| 0 <= i < count_of(bytes, 3) ==> #[trigger] class_ok(bytes, i)
    &&& forall|i: int, m: int|
        0 <= i < count_of(bytes, 3) && 0 <= m < class_at(bytes, i).methods.len
            ==> #[trigger] method_ok(bytes, class_at(bytes, i).methods.off as int, m)
}

/// The tables that a well-formed file holds.
pub open spec fn tables_of(bytes: Seq<u8>) -> ImageView {
    ImageView {
        segments: Seq::new(count_of(bytes, 0) as nat, |i: int| segment_at(bytes, i)),
        imports: Seq::new(count_of(bytes, 1) as nat, |i: int| import_at(bytes, i)),
        relocs: Seq::new(count_of(bytes, 2) as nat, |i: int| reloc_at(bytes, i)),
        classes: Seq::new(count_of(bytes, 3) as nat, |i: int| class_at(bytes, i)),
        methods: Seq::new(count_of(bytes, 3) as nat, |i: int| methods_of(bytes, i)),
    }
}

/// What holds of the tables of a well-formed file: every range lies inside
/// the file, no file part is longer than its segment, every import that a
/// relocation or a method names is in the import table, and each class has
/// its methods.
pub open spec fn tables_ok(bytes: Seq<u8>, img: ImageView) -> bool {
    &&& forall|i: int|
        0 <= i < img.segments.len() ==> in_file(bytes, (#[trigger] img.segments[i]).file)
            && img.segments[i].file.len <= img.segments[i].size
    &&& forall|i: int| 0 <= i < img.imports.len() ==> in_file(bytes, #[trigger] img.imports[i])
    &&& forall|i: int|
        0 <= i < img.relocs.len() ==> (#[trigger] img.relocs[i]).import < img.imports.len()
    &&& img.methods.len() == img.classes.len()
    &&& forall|i: int|
        0 <= i < img.classes.len() ==> in_file(bytes, (#[trigger] img.classes[i]).name) && in_file(
            bytes,
            img.classes[i].superclass,
        )
    &&& forall|i: int, m: int|
        0 <= i < img.methods.len() && 0 <= m < img.methods[i].len() ==> method_entry_ok(
            bytes,
            img,
            #[trigger] img.methods[i][m],
        )
}

/// Whether a method's selector lies inside the file and an import that the
/// method names is in the import table.
pub open spec fn method_entry_ok(bytes: Seq<u8>, img: ImageView, method: MethodEntry) -> bool {
    &&& in_file(bytes, method.selector)
    &&& match method.target {
        MethodTarget::Import(i) => i < img.imports.len(),
        MethodTarget::Code(_) => true,
    }
}

/// The tables of a well-formed file are in order.
pub proof fn lemma_parsed_tables_ok(bytes: Seq<u8>)
    requires
        well_formed(bytes),
    ensures
        tables_ok(bytes, tables_of(bytes)),
{
    let img = tables_of(bytes);
    assert forall|i: int| 0 <= i < img.segments.len() implies in_file(
        bytes,
        (#[trigger] img.segments[i]).file,
    ) && img.segments[i].file.len <= img.segments[i].size by {
        assert(segment_ok(bytes, i));
    }
    assert forall|i: int| 0 <= i < img.imports.len() implies in_file(
        bytes,
        #[trigger] img.imports[i],
    ) by {
        assert(in_file(bytes, import_at(bytes, i)));
    }
    assert forall|i: int| 0 <= i < img.relocs.len() implies (#[trigger] img.relocs[i]).import
        < img.imports.len() by {
        assert(reloc_at(bytes, i).import < count_of(bytes, 1));
    }
    assert forall|i: int| 0 <= i < img.classes.len() implies in_file(
        bytes,
        (#[trigger] img.classes[i]).name,
    ) && in_file(bytes, img.classes[i].superclass) by {
        assert(class_ok(bytes, i));
    }
    assert forall|i: int, m: int|
        0 <= i < img.methods.len() && 0 <= m < img.methods[i].len() implies method_entry_ok(
        bytes,
        img,
        #[trigger] img.methods[i][m],
    ) by {
        assert(method_ok(bytes, class_at(bytes, i).methods.off as int, m));
    }
}

/// What parsing a file yields: its tables, or nothing where it is
/// malformed.
pub open spec fn parse_spec(bytes: Seq<u8>) -> Option<ImageView> {
    if well_formed(bytes) {
        Some(tables_of(bytes))
    } else {
        None
    }
}

/// The word that stands at `off`.
fn read_word(bytes: &[u8], off: usize) -> (w: u32)
    requires
        off + 4 <= bytes@.len(),
    ensures
        w == word_at(bytes@, off as int),
{
    reveal(word_at);
    let b0: u32 = bytes[off] as u32;
    let b1: u32 = bytes[off + 1] as u32;
    let b2: u32 = bytes[off + 2] as u32;
    let b3: u32 = bytes[off + 3] as u32;
    b0 + b1 * 0x100 + b2 * 0x1_0000 + b3 * 0x100_0000
}

/// The range of `len` bytes at `off`, if it lies inside the file.
fn span_in(bytes: &[u8], off: u32, len: u32) -> (found: Option<Span>)
    ensures
        found == (if in_file(bytes@, Span { off, len }) {
            Some(Span { off, len })
        } else {
            None
        }),
{
    if off as u64 + len as u64 <= bytes.len() as u64 {
        Some(Span { off, len })
    } else {
        None
    }
}

/// The segment table, or nothing where an entry is out of order.
fn parse_segments(bytes: &[u8]) -> (found: Option<Vec<Segment>>)
    requires
        header_ok(bytes@),
    ensures
        match found {
            Some(segments) => {
                &&& segments@ == tables_of(bytes@).segments
                &&& forall|i: int| 0 <= i < count_of(bytes@, 0) ==> #[trigger] segment_ok(bytes@, i)
            },
            None => exists|i: int| 0 <= i < count_of(bytes@, 0) && !#[trigger] segment_ok(bytes@, i),
        },
{
    let size: usize = bytes.len();
    let count: usize = read_word(bytes, 4) as usize;
    let mut segments: Vec<Segment> = Vec::new();
    let mut i: usize = 0;
    while i < count
        invariant
            header_ok(bytes@),
            size == bytes@.len(),
            count == count_of(bytes@, 0),
            i <= count,
            segments@ == Seq::new(i as nat, |k: int| segment_at(bytes@, k)),
            forall|k: int| 0 <= k < i ==> #[trigger] segment_ok(bytes@, k),
        decreases count - i,
    {
        let at: usize = 20 + 20 * i;
        let addr: u32 = read_word(bytes, at);
        let size: u32 = read_word(bytes, at + 4);
        let off: u32 = read_word(bytes, at + 8);
        let len: u32 = read_word(bytes, at + 12);
        let flags: u32 = read_word(bytes, at + 16);
        let file = match span_in(bytes, off, len) {
            Some(file) => file,
            None => {
                assert(!segment_ok(bytes@, i as int));
                return None;
            },
        };
        if flags >= 8 || len > size {
            assert(!segment_ok(bytes@, i as int));
            return None;
        }
        let perms = Permissions {
            read: flags % 2 == 1,
            write: (flags / 2) % 2 == 1,
            execute: flags / 4 == 1,
        };
        segments.push(Segment { addr, size, file, perms });
        assert(segment_ok(bytes@, i as int));
        i += 1;
        assert(segments@ =~= Seq::new(i as nat, |k: int| segment_at(bytes@, k)));
    }
    Some(segments)
}

/// The import table, or nothing where a name leaves the file.
fn parse_imports(bytes: &[u8]) -> (found: Option<Vec<Span>>)
    requires
        header_ok(bytes@),
    ensures
        match found {
            Some(imports) => {
                &&& imports@ == tables_of(bytes@).imports
                &&& forall|i: int|
                    0 <= i < count_of(bytes@, 1) ==> in_file(bytes@, #[trigger] import_at(bytes@, i))
            },
            None => exists|i: int|
                0 <= i < count_of(bytes@, 1) && !in_file(bytes@, #[trigger] import_at(bytes@, i)),
        },
{
    let size: usize = bytes.len();
    let segment_count: u64 = read_word(bytes, 4) as u64;
    let count: usize = read_word(bytes, 8) as usize;
    let start: usize = (20 + 20 * segment_count) as usize;
    let mut imports: Vec<Span> = Vec::new();
    let mut i: usize = 0;
    while i < count
        invariant
            header_ok(bytes@),
            size == bytes@.len(),
            count == count_of(bytes@, 1),
            start == imports_at(bytes@),
            i <= count,
            imports@ == Seq::new(i as nat, |k: int| import_at(bytes@, k)),
            forall|k: int| 0 <= k < i ==> in_file(bytes@, #[trigger] import_at(bytes@, k)),
        decreases count - i,
    {
        let at: usize = start + 8 * i;
        let off: u32 = read_word(bytes, at);
        let len: u32 = read_word(bytes, at + 4);
        match span_in(bytes, off, len) {
            Some(name) => {
                imports.push(name);
            },
            None => {
                assert(!in_file(bytes@, import_at(bytes@, i as int)));
                return None;
            },
        }
        assert(in_file(bytes@, import_at(bytes@, i as int)));
        i += 1;
        assert(imports@ =~= Seq::new(i as nat, |k: int| import_at(bytes@, k)));
    }
    Some(imports)
}

/// The relocation table, or nothing where an entry names an import that the
/// import table does not hold.
fn parse_relocs(bytes: &[u8]) -> (found: Option<Vec<Reloc>>)
    requires
        header_ok(bytes@),
    ensures
        match found {
            Some(relocs) => {
                &&& relocs@ == tables_of(bytes@).relocs
                &&& forall|i: int|
                    0 <= i < count_of(bytes@, 2) ==> (#[trigger] reloc_at(bytes@, i)).import
                        < count_of(bytes@, 1)
            },
            None => exists|i: int|
                0 <= i < count_of(bytes@, 2) && (#[trigger] reloc_at(bytes@, i)).import
                    >= count_of(bytes@, 1),
        },
{
    let size: usize = bytes.len();
    let segment_count: u64 = read_word(bytes, 4) as u64;
    let import_count: u32 = read_word(bytes, 8);
    let count: usize = read_word(bytes, 12) as usize;
    let start: usize = (20 + 20 * segment_count + 8 * (import_count as u64)) as usize;
    let mut relocs: Vec<Reloc> = Vec::new();
    let mut i: usize = 0;
    while i < count
        invariant
            header_ok(bytes@),
            size == bytes@.len(),
            count == count_of(bytes@, 2),
            import_count == count_of(bytes@, 1),
            start == relocs_at(bytes@),
            i <= count,
            relocs@ == Seq::new(i as nat, |k: int| reloc_at(bytes@, k)),
            forall|k: int| 0 <= k < i ==> (#[trigger] reloc_at(bytes@, k)).import < import_count,
        decreases count - i,
    {
        let at: usize = start + 8 * i;
        let addr: u32 = read_word(bytes, at);
        let import: u32 = read_word(bytes, at + 4);
        if import >= import_count {
            assert(reloc_at(bytes@, i as int).import >= count_of(bytes@, 1));
            return None;
        }
        relocs.push(Reloc { addr, import });
        assert(reloc_at(bytes@, i as int).import < import_count);
        i += 1;
        assert(relocs@ =~= Seq::new(i as nat, |k: int| reloc_at(bytes@, k)));
    }
    Some(relocs)
}

/// The class table, or nothing where an entry leaves the file.
fn parse_classes(bytes: &[u8]) -> (found: Option<Vec<ClassEntry>>)
    requires
        header_ok(bytes@),
    ensures
        match found {
            Some(classes) => {
                &&& classes@ == tables_of(bytes@).classes
                &&& forall|i: int| 0 <= i < count_of(bytes@, 3) ==> #[trigger] class_ok(bytes@, i)
            },
            None => exists|i: int| 0 <= i < count_of(bytes@, 3) && !#[trigger] class_ok(bytes@, i),
        },
{
    let size: usize = bytes.len();
    let segment_count: u64 = read_word(bytes, 4) as u64;
    let import_count: u64 = read_word(bytes, 8) as u64;
    let reloc_count: u64 = read_word(bytes, 12) as u64;
    let count: usize = read_word(bytes, 16) as usize;
    let start: usize = (20 + 20 * segment_count + 8 * import_count + 8 * reloc_count) as usize;
    let mut classes: Vec<ClassEntry> = Vec::new();
    let mut i: usize = 0;
    while i < count
        invariant
            header_ok(bytes@),
            size == bytes@.len(),
            count == count_of(bytes@, 3),
            start == classes_at(bytes@),
            i <= count,
            classes@ == Seq::new(i as nat, |k: int| class_at(bytes@, k)),
            forall|k: int| 0 <= k < i ==> #[trigger] class_ok(bytes@, k),
        decreases count - i,
    {
        let at: usize = start + 28 * i;
        let name = span_in(bytes, read_word(bytes, at), read_word(bytes, at + 4));
        let superclass = span_in(bytes, read_word(bytes, at + 8), read_word(bytes, at + 12));
        let instance_size: u32 = read_word(bytes, at + 16);
        let method_count: u32 = read_word(bytes, at + 20);
        let methods_off: u32 = read_word(bytes, at + 24);
        let methods_fit: bool = methods_off as u64 + 16 * (method_count as u64) <= size as u64;
        match (name, superclass, methods_fit) {
            (Some(name), Some(superclass), true) => {
                classes.push(
                    ClassEntry {
                        name,
                        superclass,
                        instance_size,
                        methods: Span { off: methods_off, len: method_count },
                    },
                );
            },
            _ => {
                assert(!class_ok(bytes@, i as int));
                return None;
            },
        }
        assert(class_ok(bytes@, i as int));
        i += 1;
        assert(classes@ =~= Seq::new(i as nat, |k: int| class_at(bytes@, k)));
    }
    Some(classes)
}

/// The methods of `class`, or nothing where one of them is out of order.
fn parse_methods(bytes: &[u8], class: ClassEntry) -> (found: Option<Vec<MethodEntry>>)
    requires
        header_ok(bytes@),
        class.methods.off + 16 * class.methods.len <= bytes@.len(),
    ensures
        match found {
            Some(methods) => {
                &&& methods@ == Seq::new(
                    class.methods.len as nat,
                    |m: int| method_at(bytes@, class.methods.off as int, m),
                )
                &&& forall|m: int|
                    0 <= m < class.methods.len ==> #[trigger] method_ok(
                        bytes@,
                        class.methods.off as int,
                        m,
                    )
            },
            None => exists|m: int|
                0 <= m < class.methods.len && !#[trigger] method_ok(
                    bytes@,
                    class.methods.off as int,
                    m,
                ),
        },
{
    let size: usize = bytes.len();
    let import_count: u32 = read_word(bytes, 8);
    let start: usize = class.methods.off as usize;
    let count: usize = class.methods.len as usize;
    let mut methods: Vec<MethodEntry> = Vec::new();
    let mut m: usize = 0;
    while m < count
        invariant
            size == bytes@.len(),
            import_count == count_of(bytes@, 1),
            start == class.methods.off,
            count == class.methods.len,
            start + 16 * count <= size,
            m <= count,
            methods@ == Seq::new(m as nat, |k: int| method_at(bytes@, start as int, k)),
            forall|k: int| 0 <= k < m ==> #[trigger] method_ok(bytes@, start as int, k),
        decreases count - m,
    {
        let at: usize = start + 16 * m;
        let selector = span_in(bytes, read_word(bytes, at), read_word(bytes, at + 4));
        let tag: u32 = read_word(bytes, at + 8);
        let value: u32 = read_word(bytes, at + 12);
        let selector = match selector {
            Some(selector) => selector,
            None => {
                assert(!method_ok(bytes@, start as int, m as int));
                return None;
            },
        };
        let target = if tag == 0 {
            MethodTarget::Code(value)
        } else if tag == 1 && value < import_count {
            MethodTarget::Import(value)
        } else {
            assert(!method_ok(bytes@, start as int, m as int));
            return None;
        };
        methods.push(MethodEntry { selector, target });
        assert(method_ok(bytes@, start as int, m as int));
        m += 1;
        assert(methods@ =~= Seq::new(m as nat, |k: int| method_at(bytes@, start as int, k)));
    }
    Some(methods)
}

/// Whether the file starts with a header whose tables lie inside the file.
fn check_header(bytes: &[u8]) -> (ok: bool)
    ensures
        ok == header_ok(bytes@),
{
    if bytes.len() < 20 {
        return false;
    }
    if read_word(bytes, 0) != IMAGE_MAGIC {
        return false;
    }
    let segments: u64 = read_word(bytes, 4) as u64;
    let imports: u64 = read_word(bytes, 8) as u64;
    let relocs: u64 = read_word(bytes, 12) as u64;
    let classes: u64 = read_word(bytes, 16) as u64;
    20 + 20 * segments + 8 * imports + 8 * relocs + 28 * classes <= bytes.len() as u64
}

/// Parses an image. Fails with `MalformedBinary` unless the file is
/// well-formed: the magic number is there, the tables lie inside the file,
/// and every entry is in order.
pub fn parse(bytes: &[u8]) -> (r: Result<Image, LoadError>)
    ensures
        match r {
            Ok(image) => parse_spec(bytes@) == Some(image@) && tables_ok(bytes@, image@),
            Err(e) => e == LoadError::MalformedBinary && parse_spec(bytes@) is None,
        },
{
    if !check_header(bytes) {
        return Err(LoadError::MalformedBinary);
    }
    let segments = match parse_segments(bytes) {
        Some(segments) => segments,
        None => {
            return Err(LoadError::MalformedBinary);
        },
    };
    let imports = match parse_imports(bytes) {
        Some(imports) => imports,
        None => {
            return Err(LoadError::MalformedBinary);
        },
    };
    let relocs = match parse_relocs(bytes) {
        Some(relocs) => relocs,
        None => {
            return Err(LoadError::MalformedBinary);
        },
    };
    let classes = match parse_classes(bytes) {
        Some(classes) => classes,
        None => {
            return Err(LoadError::MalformedBinary);
        },
    };
    let mut methods: Vec<Vec<MethodEntry>> = Vec::new();
    let mut c: usize = 0;
    while c < classes.len()
        invariant
            header_ok(bytes@),
            classes@ == tables_of(bytes@).classes,
            forall|i: int| 0 <= i < count_of(bytes@, 3) ==> #[trigger] class_ok(bytes@, i),
            c <= classes@.len(),
            methods@.len() == c,
            forall|i: int| 0 <= i < c ==> (#[trigger] methods@[i])@ == methods_of(bytes@, i),
            forall|i: int, m: int|
                0 <= i < c && 0 <= m < class_at(bytes@, i).methods.len ==> #[trigger] method_ok(
                    bytes@,
                    class_at(bytes@, i).methods.off as int,
                    m,
                ),
        decreases classes@.len() - c,
    {
        assert(class_ok(bytes@, c as int));
        assert(classes@[c as int] == class_at(bytes@, c as int));
        match parse_methods(bytes, classes[c]) {
            Some(found) => {
                methods.push(found);
            },
            None => {
                return Err(LoadError::MalformedBinary);
            },
        }
        c += 1;
    }
    let image = Image { segments, imports, relocs, classes, methods };
    assert(image@.methods =~= tables_of(bytes@).methods);
    assert(image@ =~= tables_of(bytes@));
    proof {
        lemma_parsed_tables_ok(bytes@);
    }
    Ok(image)
}

} // verus!
