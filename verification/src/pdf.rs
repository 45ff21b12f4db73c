//! The PDF object store, modeled.
//!
//! The assembled font objects live in a `lopdf::Document`. To state what the
//! assembler puts there, this module models a PDF object as the plain value
//! [`PdfObj`], names the contents of lopdf's containers — an object's shape,
//! a dictionary's ordered entries, a document's object map and id counter —
//! and wraps the handful of lopdf constructors the assembler calls, each
//! wrapper saying over those names exactly what lopdf's source does.

use vstd::prelude::*;

use lopdf::Dictionary;
use lopdf::Document;
use lopdf::Object;
use lopdf::Stream;

verus! {

/// A PDF object identity: object number and generation number.
pub type ObjectId = (u32, u16);

/// The mathematical shape of a PDF object. A dictionary is an ordered entry
/// list, as lopdf keeps insertion order; a name or literal string built from
/// text is modeled by its characters.
pub enum PdfObj {
    Int(i64),
    Name(Seq<char>),
    LitStr(Seq<char>),
    Array(Seq<PdfObj>),
    Dict(Seq<(Seq<char>, PdfObj)>),
    Stream(Seq<(Seq<char>, PdfObj)>, Seq<u8>, bool),
    Ref(ObjectId),
}

#[verifier::external_type_specification]
#[verifier::external_body]
pub struct ExDocument(Document);

#[verifier::external_type_specification]
#[verifier::external_body]
pub struct ExObject(Object);

#[verifier::external_type_specification]
#[verifier::external_body]
pub struct ExDictionary(Dictionary);

#[verifier::external_type_specification]
#[verifier::external_body]
pub struct ExStream(Stream);

/// The shape of a lopdf object.
pub uninterp spec fn obj_rep(o: Object) -> PdfObj;

/// The shapes of a vector of lopdf objects, in order.
pub open spec fn obj_reps(items: Seq<Object>) -> Seq<PdfObj> {
    items.map_values(|x: Object| obj_rep(x))
}

/// The ordered entries of a lopdf dictionary.
pub uninterp spec fn dict_rep(d: Dictionary) -> Seq<(Seq<char>, PdfObj)>;

/// What a lopdf stream holds: its dictionary's entries, its content bytes,
/// and whether document-wide compression may touch it.
pub uninterp spec fn stream_rep(s: Stream) -> (Seq<(Seq<char>, PdfObj)>, Seq<u8>, bool);

/// The objects a lopdf document holds, by object identity.
pub uninterp spec fn doc_objects(d: Document) -> Map<ObjectId, PdfObj>;

/// The document's current maximum object number, from which the next identity
/// is allocated.
pub uninterp spec fn doc_max_id(d: Document) -> u32;

/// Relies on lopdf's Object::Integer.
#[verifier::external_body]
pub(crate) fn obj_integer(i: i64) -> (o: Object)
    ensures
        obj_rep(o) == PdfObj::Int(i),
{
    Object::Integer(i)
}

/// Relies on lopdf's From<&str> for Object: a name carrying the text's bytes.
#[verifier::external_body]
pub(crate) fn obj_name(name: &str) -> (o: Object)
    ensures
        obj_rep(o) == PdfObj::Name(name@),
{
    Object::from(name)
}

/// Relies on lopdf's Object::string_literal: a literal string of the text's
/// bytes.
#[verifier::external_body]
pub(crate) fn obj_string_literal(s: &str) -> (o: Object)
    ensures
        obj_rep(o) == PdfObj::LitStr(s@),
{
    Object::string_literal(s)
}

/// Relies on lopdf's Object::Reference.
#[verifier::external_body]
pub(crate) fn obj_reference(id: ObjectId) -> (o: Object)
    ensures
        obj_rep(o) == PdfObj::Ref(id),
{
    Object::Reference(id)
}

/// Relies on lopdf's Object::Array: the items in order.
#[verifier::external_body]
pub(crate) fn obj_array(items: Vec<Object>) -> (o: Object)
    ensures
        obj_rep(o) == PdfObj::Array(obj_reps(items@)),
{
    Object::Array(items)
}

/// Relies on lopdf's From<Dictionary> for Object.
#[verifier::external_body]
pub(crate) fn obj_dictionary(d: Dictionary) -> (o: Object)
    ensures
        obj_rep(o) == PdfObj::Dict(dict_rep(d)),
{
    Object::from(d)
}

/// Relies on lopdf's From<Stream> for Object.
#[verifier::external_body]
pub(crate) fn obj_stream(s: Stream) -> (o: Object)
    ensures
        obj_rep(o) == PdfObj::Stream(stream_rep(s).0, stream_rep(s).1, stream_rep(s).2),
{
    Object::from(s)
}

/// Relies on lopdf's Dictionary::new: an empty dictionary.
#[verifier::external_body]
pub(crate) fn dict_new() -> (d: Dictionary)
    ensures
        dict_rep(d) == Seq::<(Seq<char>, PdfObj)>::empty(),
{
    Dictionary::new()
}

/// Relies on lopdf's Dictionary::set: inserting under a fresh key appends the
/// entry, keeping the order of the ones before it.
#[verifier::external_body]
pub(crate) fn dict_set(d: &mut Dictionary, key: &str, value: Object)
    requires
        forall|i: int| 0 <= i < dict_rep(*old(d)).len() ==> (#[trigger] dict_rep(*old(d))[i]).0 != key@,
    ensures
        dict_rep(*final(d)) == dict_rep(*old(d)).push((key@, obj_rep(value))),
{
    d.set(key, value);
}

/// Relies on lopdf's Stream::new: keeps the dictionary's entries, appends a
/// Length entry with the content's byte count, and allows compression.
#[verifier::external_body]
pub(crate) fn stream_new(dict: Dictionary, content: Vec<u8>) -> (s: Stream)
    requires
        forall|i: int| 0 <= i < dict_rep(dict).len() ==> (#[trigger] dict_rep(dict)[i]).0 != "Length"@,
    ensures
        stream_rep(s) == (
            dict_rep(dict).push(("Length"@, PdfObj::Int(content@.len() as i64))),
            content@,
            true,
        ),
{
    Stream::new(dict, content)
}

/// Relies on lopdf's Stream::with_compression: sets the compression flag and
/// changes nothing else.
#[verifier::external_body]
pub(crate) fn stream_with_compression(s: Stream, allow: bool) -> (r: Stream)
    ensures
        stream_rep(r) == (stream_rep(s).0, stream_rep(s).1, allow),
{
    s.with_compression(allow)
}

/// Relies on lopdf's Document::add_object: allocates the next object number,
/// stores the object under it, and returns the new identity.
#[verifier::external_body]
pub(crate) fn doc_add_object(doc: &mut Document, o: Object) -> (id: ObjectId)
    requires
        doc_max_id(*old(doc)) < 0xffff_ffffu32,
    ensures
        id == (((doc_max_id(*old(doc)) + 1) as u32), 0u16),
        doc_max_id(*final(doc)) == id.0,
        doc_objects(*final(doc)) == doc_objects(*old(doc)).insert(id, obj_rep(o)),
{
    doc.add_object(o)
}

} // verus!
