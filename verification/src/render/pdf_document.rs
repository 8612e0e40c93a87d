//! The parts of a parsed PDF document that the repair reads and writes, and
//! the calls into lopdf that read and write them.
use lopdf::{Dictionary, Object};
use vstd::prelude::*;

verus! {

#[verifier::external_type_specification]
#[verifier::external_body]
pub struct ExDocument(lopdf::Document);

/// An entry of a resource category dictionary, as far as the repair tells
/// entries apart.
pub enum ResourceEntry {
    /// A name object, such as `/DeviceRGB`.
    Name(Seq<u8>),
    /// A dictionary whose only entry is `/Type` with the given name.
    TypedDictionary(Seq<u8>),
    /// An indirect reference to an object.
    Reference(u32, u16),
    /// Anything else.
    Other,
}

/// A resources dictionary: each category key whose value is a dictionary,
/// mapped to that dictionary's entries by key.
pub type ResourceMap = Map<Seq<u8>, Map<Seq<u8>, ResourceEntry>>;

/// The `/Resources` entry of a stream dictionary.
pub enum ResourcesEntry {
    /// A dictionary written inline.
    Inline(ResourceMap),
    /// An indirect reference to another object.
    Indirect(u32, u16),
    /// Missing, or neither a dictionary nor a reference.
    Absent,
}

/// One object of a document, as far as the repair reads it.
pub enum PdfObject {
    /// A stream: its `/Subtype` where that is a name, its content decoded
    /// (or the raw bytes where decoding fails), its `/Resources`, and whether
    /// its dictionary holds `/DecodeParms` but no `/Filter`.
    Stream { subtype: Option<Seq<u8>>, content: Seq<u8>, resources: ResourcesEntry, loose_decode_parms: bool },
    /// A dictionary, read as a resources dictionary.
    Dictionary { categories: ResourceMap },
    /// Any other object.
    Other,
}

/// The objects of a document by object id.
pub uninterp spec fn pdf_objects(d: lopdf::Document) -> Map<(u32, u16), PdfObject>;

/// The highest object number the document has handed out (its `max_id`).
pub uninterp spec fn pdf_max_id(d: lopdf::Document) -> u32;

/// Whether lopdf parses the bytes as a PDF document.
pub uninterp spec fn pdf_loads(bytes: Seq<u8>) -> bool;

/// Where a resources dictionary lives: inline in a stream's dictionary, or
/// as an object of its own.
#[derive(Clone, Copy, Debug)]
pub enum Holder {
    /// The `/Resources` dictionary of stream object `(num, gen)`.
    InStream(u32, u16),
    /// Dictionary object `(num, gen)`.
    InObject(u32, u16),
}

/// What `/Resources` of a stream is, read without following it.
#[derive(Clone, Copy, Debug)]
pub enum ResourcesAt {
    /// A dictionary in the stream's own dictionary.
    InStream,
    /// A reference to object `(num, gen)`.
    Indirect(u32, u16),
    /// Missing, or neither a dictionary nor a reference.
    Absent,
    /// The object is no stream.
    NotStream,
}

/// A resource entry to write.
#[derive(Clone, Debug)]
pub enum NewResource {
    /// A name object.
    Name(Vec<u8>),
    /// A dictionary whose only entry is `/Type` with this name.
    TypedDictionary(Vec<u8>),
    /// A reference to object `(num, gen)`.
    Reference(u32, u16),
}

/// The entry `v` writes.
pub open spec fn entry_of(v: NewResource) -> ResourceEntry {
    match v {
        NewResource::Name(n) => ResourceEntry::Name(n@),
        NewResource::TypedDictionary(t) => ResourceEntry::TypedDictionary(t@),
        NewResource::Reference(a, b) => ResourceEntry::Reference(a, b),
    }
}

/// The object that holds the resources dictionary of `h`.
pub open spec fn holder_key(h: Holder) -> (u32, u16) {
    match h {
        Holder::InStream(a, b) => (a, b),
        Holder::InObject(a, b) => (a, b),
    }
}

/// The resources dictionary `h` names, where there is one.
pub open spec fn holder_resources(m: Map<(u32, u16), PdfObject>, h: Holder) -> Option<ResourceMap> {
    if !m.contains_key(holder_key(h)) {
        None
    } else {
        match (h, m[holder_key(h)]) {
            (Holder::InStream(_, _), PdfObject::Stream { resources: ResourcesEntry::Inline(r), .. }) => Some(r),
            (Holder::InObject(_, _), PdfObject::Dictionary { categories }) => Some(categories),
            _ => None,
        }
    }
}

/// The object with its resources dictionary replaced by `r`.
pub open spec fn with_resources(o: PdfObject, r: ResourceMap) -> PdfObject {
    match o {
        PdfObject::Stream { subtype, content, loose_decode_parms, .. } => PdfObject::Stream {
            subtype,
            content,
            resources: ResourcesEntry::Inline(r),
            loose_decode_parms,
        },
        PdfObject::Dictionary { .. } => PdfObject::Dictionary { categories: r },
        PdfObject::Other => PdfObject::Other,
    }
}

/// The objects with the resources dictionary of `h` replaced by `r`.
pub open spec fn with_holder_resources(m: Map<(u32, u16), PdfObject>, h: Holder, r: ResourceMap) -> Map<(u32, u16), PdfObject> {
    m.insert(holder_key(h), with_resources(m[holder_key(h)], r))
}

/// The empty form the repair adds: `/Subtype /Form`, no content, no
/// resources.
pub open spec fn empty_form_object() -> PdfObject {
    PdfObject::Stream { subtype: Some(seq![0x46u8, 0x6fu8, 0x72u8, 0x6du8]), content: seq![], resources: ResourcesEntry::Absent, loose_decode_parms: false }
}

/// The bytes an optional vector holds.
pub open spec fn bytes_of(v: Option<Vec<u8>>) -> Option<Seq<u8>> {
    match v {
        Some(b) => Some(b@),
        None => None,
    }
}

/// The `/Subtype` name of stream `id`, if it is a stream and has one.
pub open spec fn subtype_at(m: Map<(u32, u16), PdfObject>, id: (u32, u16)) -> Option<Seq<u8>> {
    if m.contains_key(id) {
        match m[id] {
            PdfObject::Stream { subtype, .. } => subtype,
            _ => None,
        }
    } else {
        None
    }
}

/// The content of stream `id`, if it is a stream.
pub open spec fn content_at(m: Map<(u32, u16), PdfObject>, id: (u32, u16)) -> Option<Seq<u8>> {
    if m.contains_key(id) {
        match m[id] {
            PdfObject::Stream { content, .. } => Some(content),
            _ => None,
        }
    } else {
        None
    }
}

/// What the `/Resources` entry of object `id` is.
pub open spec fn resources_at_spec(m: Map<(u32, u16), PdfObject>, id: (u32, u16)) -> ResourcesAt {
    if m.contains_key(id) {
        match m[id] {
            PdfObject::Stream { resources: ResourcesEntry::Inline(_), .. } => ResourcesAt::InStream,
            PdfObject::Stream { resources: ResourcesEntry::Indirect(a, b), .. } => ResourcesAt::Indirect(a, b),
            PdfObject::Stream { resources: ResourcesEntry::Absent, .. } => ResourcesAt::Absent,
            _ => ResourcesAt::NotStream,
        }
    } else {
        ResourcesAt::NotStream
    }
}

/// Object `id` is a dictionary.
pub open spec fn is_dictionary_at(m: Map<(u32, u16), PdfObject>, id: (u32, u16)) -> bool {
    m.contains_key(id) && m[id] is Dictionary
}

/// `lopdf::Document::load_mem`: `Ok` exactly when lopdf parses the bytes;
/// the error is lopdf's message.
#[verifier::external_body]
pub(crate) fn load_pdf(bytes: &[u8]) -> (r: Result<lopdf::Document, String>)
    ensures
        r is Ok <==> pdf_loads(bytes@),
{
    match lopdf::Document::load_mem(bytes) {
        Ok(doc) => Ok(doc),
        Err(e) => Err(e.to_string()),
    }
}

/// The keys of `Document::objects`, a `BTreeMap`: each object id once.
#[verifier::external_body]
pub(crate) fn object_ids(doc: &lopdf::Document) -> (ids: Vec<(u32, u16)>)
    ensures
        forall|id: (u32, u16)| ids@.contains(id) <==> pdf_objects(*doc).contains_key(id),
        forall|i: int, j: int| 0 <= i < j < ids@.len() ==> ids@[i] != ids@[j],
{
    doc.objects.keys().copied().collect()
}

/// `Document::max_id`.
#[verifier::external_body]
pub(crate) fn max_object_number(doc: &lopdf::Document) -> (n: u32)
    ensures
        n == pdf_max_id(*doc),
{
    doc.max_id
}

/// `BTreeMap::contains_key` on `Document::objects`.
#[verifier::external_body]
pub(crate) fn has_object(doc: &lopdf::Document, id: (u32, u16)) -> (r: bool)
    ensures
        r == pdf_objects(*doc).contains_key(id),
{
    doc.objects.contains_key(&id)
}

/// `Dictionary::get(b"Subtype")` of a stream object, where it is a name.
#[verifier::external_body]
pub(crate) fn stream_subtype(doc: &lopdf::Document, id: (u32, u16)) -> (r: Option<Vec<u8>>)
    ensures
        bytes_of(r) == subtype_at(pdf_objects(*doc), id),
{
    match doc.objects.get(&id) {
        Some(Object::Stream(s)) => match s.dict.get(b"Subtype") {
            Ok(Object::Name(n)) => Some(n.clone()),
            _ => None,
        },
        _ => None,
    }
}

/// `Stream::decompressed_content` of a stream object, or its raw content
/// where that fails.
#[verifier::external_body]
pub(crate) fn stream_content(doc: &lopdf::Document, id: (u32, u16)) -> (r: Option<Vec<u8>>)
    ensures
        bytes_of(r) == content_at(pdf_objects(*doc), id),
{
    match doc.objects.get(&id) {
        Some(Object::Stream(s)) => Some(s.decompressed_content().unwrap_or_else(|_| s.content.clone())),
        _ => None,
    }
}

/// `Dictionary::get(b"Resources")` of a stream object, told apart by kind.
#[verifier::external_body]
pub(crate) fn resources_at(doc: &lopdf::Document, id: (u32, u16)) -> (r: ResourcesAt)
    ensures
        r == resources_at_spec(pdf_objects(*doc), id),
{
    match doc.objects.get(&id) {
        Some(Object::Stream(s)) => match s.dict.get(b"Resources") {
            Ok(Object::Dictionary(_)) => ResourcesAt::InStream,
            Ok(Object::Reference(t)) => ResourcesAt::Indirect(t.0, t.1),
            _ => ResourcesAt::Absent,
        },
        _ => ResourcesAt::NotStream,
    }
}

/// Whether the object `id` is a dictionary.
#[verifier::external_body]
pub(crate) fn is_dictionary(doc: &lopdf::Document, id: (u32, u16)) -> (r: bool)
    ensures
        r == is_dictionary_at(pdf_objects(*doc), id),
{
    match doc.objects.get(&id) {
        Some(Object::Dictionary(_)) => true,
        _ => false,
    }
}

/// The keys of category `cat` of the resources dictionary of `h`
/// (`Dictionary::iter`, each key once), or `None` where that entry is not a
/// dictionary.
#[verifier::external_body]
pub(crate) fn resource_keys(doc: &lopdf::Document, h: Holder, cat: &[u8]) -> (r: Option<Vec<Vec<u8>>>)
    requires
        holder_resources(pdf_objects(*doc), h) is Some,
    ensures
        ({
            let res = holder_resources(pdf_objects(*doc), h)->0;
            match r {
                Some(keys) => res.contains_key(cat@) && (forall|n: Seq<u8>|
                    res[cat@].contains_key(n) <==> exists|k: int| 0 <= k < keys@.len() && #[trigger] keys@[k]@ == n)
                    && (forall|i: int, j: int| 0 <= i < j < keys@.len() ==> #[trigger] keys@[i]@ != #[trigger] keys@[j]@),
                None => !res.contains_key(cat@),
            }
        }),
{
    let res = match h {
        Holder::InStream(a, b) => match doc.objects.get(&(a, b)) {
            Some(Object::Stream(s)) => s.dict.get(b"Resources").ok(),
            _ => None,
        },
        Holder::InObject(a, b) => doc.objects.get(&(a, b)),
    };
    match res {
        Some(Object::Dictionary(r)) => match r.get(cat) {
            Ok(Object::Dictionary(sub)) => Some(sub.iter().map(|(k, _)| k.clone()).collect()),
            _ => None,
        },
        _ => None,
    }
}

/// `Dictionary::set("Resources", <empty dictionary>)` on a stream object.
#[verifier::external_body]
pub(crate) fn set_empty_inline_resources(doc: &mut lopdf::Document, id: (u32, u16))
    requires
        content_at(pdf_objects(*old(doc)), id) is Some,
    ensures
        pdf_objects(*final(doc)) == pdf_objects(*old(doc)).insert(
            id,
            with_resources(pdf_objects(*old(doc))[id], Map::empty()),
        ),
        pdf_max_id(*final(doc)) == pdf_max_id(*old(doc)),
{
    if let Some(Object::Stream(s)) = doc.objects.get_mut(&id) {
        s.dict.set("Resources", Object::Dictionary(Dictionary::new()));
    }
}

/// `Dictionary::set(cat, <empty dictionary>)` on the resources dictionary
/// of `h`.
#[verifier::external_body]
pub(crate) fn set_empty_category(doc: &mut lopdf::Document, h: Holder, cat: &[u8])
    requires
        holder_resources(pdf_objects(*old(doc)), h) is Some,
    ensures
        pdf_objects(*final(doc)) == with_holder_resources(
            pdf_objects(*old(doc)),
            h,
            holder_resources(pdf_objects(*old(doc)), h)->0.insert(cat@, Map::empty()),
        ),
        pdf_max_id(*final(doc)) == pdf_max_id(*old(doc)),
{
    let res = match h {
        Holder::InStream(a, b) => match doc.objects.get_mut(&(a, b)) {
            Some(Object::Stream(s)) => s.dict.get_mut(b"Resources").ok(),
            _ => None,
        },
        Holder::InObject(a, b) => doc.objects.get_mut(&(a, b)),
    };
    if let Some(Object::Dictionary(r)) = res {
        r.set(cat.to_vec(), Object::Dictionary(Dictionary::new()));
    }
}

/// `Dictionary::set(name, value)` on category `cat` of the resources
/// dictionary of `h`, a dictionary.
#[verifier::external_body]
pub(crate) fn set_resource(doc: &mut lopdf::Document, h: Holder, cat: &[u8], name: &[u8], value: NewResource)
    requires
        holder_resources(pdf_objects(*old(doc)), h) is Some,
        holder_resources(pdf_objects(*old(doc)), h)->0.contains_key(cat@),
    ensures
        ({
            let r = holder_resources(pdf_objects(*old(doc)), h)->0;
            pdf_objects(*final(doc)) == with_holder_resources(
                pdf_objects(*old(doc)),
                h,
                r.insert(cat@, r[cat@].insert(name@, entry_of(value))),
            )
        }),
        pdf_max_id(*final(doc)) == pdf_max_id(*old(doc)),
{
    let obj = match value {
        NewResource::Name(n) => Object::Name(n),
        NewResource::TypedDictionary(t) => Object::Dictionary(Dictionary::from_iter([("Type", Object::Name(t))])),
        NewResource::Reference(a, b) => Object::Reference((a, b)),
    };
    let res = match h {
        Holder::InStream(a, b) => match doc.objects.get_mut(&(a, b)) {
            Some(Object::Stream(s)) => s.dict.get_mut(b"Resources").ok(),
            _ => None,
        },
        Holder::InObject(a, b) => doc.objects.get_mut(&(a, b)),
    };
    if let Some(Object::Dictionary(r)) = res {
        if let Ok(Object::Dictionary(sub)) = r.get_mut(cat) { sub.set(name, obj); }
    }
}

/// `Document::try_add_object` of a stream with no content whose dictionary
/// holds `/Type` and `/Subtype` with the given names and `/BBox [0 0 0 0]`:
/// it takes the id after `max_id`.
#[verifier::external_body]
pub(crate) fn add_empty_stream(doc: &mut lopdf::Document, kind: Vec<u8>, subtype: Vec<u8>) -> (id: (u32, u16))
    requires
        pdf_max_id(*old(doc)) < u32::MAX,
    ensures
        id.0 == pdf_max_id(*old(doc)) + 1,
        id.1 == 0,
        pdf_objects(*final(doc)) == pdf_objects(*old(doc)).insert(
            id,
            PdfObject::Stream { subtype: Some(subtype@), content: seq![], resources: ResourcesEntry::Absent, loose_decode_parms: false },
        ),
        pdf_max_id(*final(doc)) == id.0,
{
    let mut dict = Dictionary::new();
    dict.set("Type", Object::Name(kind));
    dict.set("Subtype", Object::Name(subtype));
    dict.set("BBox", Object::Array(vec![Object::Integer(0); 4]));
    match doc.try_add_object(Object::Stream(lopdf::Stream::new(dict, Vec::new()))) {
        Ok(id) => id,
        Err(_) => (0, 0),
    }
}

/// `Stream::set_plain_content` on a stream object: the content replaced,
/// `/Filter` and `/DecodeParms` dropped, so it reads back as given.
#[verifier::external_body]
pub(crate) fn set_plain_content(doc: &mut lopdf::Document, id: (u32, u16), content: Vec<u8>)
    requires
        content_at(pdf_objects(*old(doc)), id) is Some,
    ensures
        ({
            let o = pdf_objects(*old(doc))[id];
            pdf_objects(*final(doc)) == pdf_objects(*old(doc)).insert(
                id,
                PdfObject::Stream { subtype: o->subtype, content: content@, resources: o->resources, loose_decode_parms: false },
            )
        }),
        pdf_max_id(*final(doc)) == pdf_max_id(*old(doc)),
{
    if let Some(Object::Stream(s)) = doc.objects.get_mut(&id) {
        s.set_plain_content(content);
    }
}

/// What `Document::compress` leaves of the objects `a`: the same ids; every
/// object as it was, but for a stream with `/DecodeParms` and no `/Filter`,
/// which keeps its subtype and resources.
pub open spec fn compressed_objects(a: Map<(u32, u16), PdfObject>, b: Map<(u32, u16), PdfObject>) -> bool {
    &&& b.dom() == a.dom()
    &&& forall|id: (u32, u16)| #[trigger] a.contains_key(id) ==> match a[id] {
        PdfObject::Stream { subtype, resources, loose_decode_parms, .. } => if loose_decode_parms {
            b[id] is Stream && b[id]->subtype == subtype && b[id]->resources == resources
        } else {
            b[id] == a[id]
        },
        _ => b[id] == a[id],
    }
}

/// The bytes `Document::save_to` writes for a document, or `None` where it
/// fails.
pub uninterp spec fn pdf_written(d: lopdf::Document) -> Option<Seq<u8>>;

/// `Document::compress`: each stream that allows compression and has no
/// `/Filter` gets its content deflated and `/Filter /FlateDecode` where that
/// is shorter, so it decodes as before; other objects are untouched. A
/// stream with `/DecodeParms` but no `/Filter` would decode through those
/// parameters afterwards: of it only subtype and resources are stated.
#[verifier::external_body]
pub(crate) fn compress_document(doc: &mut lopdf::Document)
    ensures
        compressed_objects(pdf_objects(*old(doc)), pdf_objects(*final(doc))),
        pdf_max_id(*final(doc)) == pdf_max_id(*old(doc)),
{
    doc.compress();
}

/// `Document::save_to` into a byte vector; the error is lopdf's message.
/// Whether it succeeds and what it writes are a function of the document
/// (`pdf_written`): it writes the objects in id order, then the
/// cross-reference data and trailer, into memory.
#[verifier::external_body]
pub(crate) fn save_document(doc: &mut lopdf::Document) -> (r: Result<Vec<u8>, String>)
    ensures
        match r {
            Ok(b) => pdf_written(*old(doc)) == Some(b@),
            Err(_) => pdf_written(*old(doc)) is None,
        },
{
    let mut out = std::io::Cursor::new(Vec::new());
    match doc.save_to(&mut out) {
        Ok(()) => Ok(out.into_inner()),
        Err(e) => Err(e.to_string()),
    }
}

} // verus!
