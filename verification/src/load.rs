//! Extracting a document's encryption material from its raw bytes,
//! through the `lopdf` parser.  The parse outcome is modeled by named
//! spec functions, each trusted accessor states exactly which entry of
//! that model it reads, and the loader's own contract says, over the
//! model, when loading succeeds and which material comes back.

use vstd::prelude::*;
use crate::crackers::{PDFCracker, bytes_eq};
use crate::errors::CrackError;

verus! {

#[verifier::external_type_specification]
#[verifier::external_body]
pub struct ExDocument(lopdf::Document);

#[verifier::external_type_specification]
#[verifier::external_body]
pub struct ExObject(lopdf::Object);

#[verifier::external_type_specification]
#[verifier::external_body]
pub struct ExDictionary(lopdf::Dictionary);

/// A parsed document object, reduced to what the encryption walk
/// reads: integers, names, string bytes, arrays, dictionaries and
/// references; everything else is `Other`.
pub enum ObjModel {
    /// An integer object.
    Int(int),
    /// A name object's bytes.
    Name(Seq<u8>),
    /// A string object's raw bytes.
    Bytes(Seq<u8>),
    /// An array object's elements.
    Array(Seq<ObjModel>),
    /// A dictionary object's entries, keyed by name bytes.
    Dict(Map<Seq<u8>, ObjModel>),
    /// An indirect reference.
    Ref(u32, u16),
    /// Any other kind of object.
    Other,
}

/// What a parsed document holds: its trailer dictionary and its
/// object table.
pub struct DocModel {
    /// The trailer's entries.
    pub trailer: Map<Seq<u8>, ObjModel>,
    /// The numbered objects.
    pub objects: Map<(u32, u16), ObjModel>,
}

/// The parse outcome of a byte string: `None` when the parser rejects
/// it, otherwise the parsed document's model.  With sequential object
/// loading this is a function of the bytes alone.
pub uninterp spec fn pdf_parse(bytes: Seq<u8>) -> Option<DocModel>;

/// The model of a parsed document.
pub uninterp spec fn doc_model(d: lopdf::Document) -> DocModel;

/// The model of one document object.
pub uninterp spec fn obj_model(o: lopdf::Object) -> ObjModel;

/// The entries of one dictionary object.
pub uninterp spec fn dict_model(d: lopdf::Dictionary) -> Map<Seq<u8>, ObjModel>;

/// Relies on lopdf::Document::load_mem: parses a document, with its
/// cross-reference table and trailer, from bytes in memory.  The
/// dependency is taken without lopdf's parallel object loading, so
/// objects are read sequentially and the outcome depends on the bytes
/// alone.
#[verifier::external_body]
fn load_document(data: &[u8]) -> (r: Result<lopdf::Document, CrackError>)
    ensures
        pdf_parse(data@) is None <==> r is Err,
        r matches Ok(d) ==> pdf_parse(data@) == Some(doc_model(d)),
        r matches Err(e) ==> e == CrackError::ParseError,
{
    match lopdf::Document::load_mem(data) {
        Ok(doc) => Ok(doc),
        Err(_) => Err(CrackError::ParseError),
    }
}

/// Relies on lopdf::Dictionary::get on the trailer: returns the entry
/// exactly when the key is present.
#[verifier::external_body]
fn trailer_get<'a>(doc: &'a lopdf::Document, key: &[u8]) -> (r: Result<
    &'a lopdf::Object,
    CrackError,
>)
    ensures
        r is Ok <==> doc_model(*doc).trailer.contains_key(key@),
        r matches Ok(o) ==> obj_model(*o) == doc_model(*doc).trailer[key@],
        r matches Err(e) ==> e == CrackError::UnsupportedFormatError,
{
    match doc.trailer.get(key) {
        Ok(o) => Ok(o),
        Err(_) => Err(CrackError::UnsupportedFormatError),
    }
}

/// Relies on lopdf::Dictionary::get: returns the entry exactly when
/// the key is present.
#[verifier::external_body]
fn dict_get<'a>(dict: &'a lopdf::Dictionary, key: &[u8]) -> (r: Result<
    &'a lopdf::Object,
    CrackError,
>)
    ensures
        r is Ok <==> dict_model(*dict).contains_key(key@),
        r matches Ok(o) ==> obj_model(*o) == dict_model(*dict)[key@],
        r matches Err(e) ==> e == CrackError::UnsupportedFormatError,
{
    match dict.get(key) {
        Ok(o) => Ok(o),
        Err(_) => Err(CrackError::UnsupportedFormatError),
    }
}

/// Relies on std's BTreeMap::get on lopdf's public object table:
/// returns the object exactly when the id is present, without
/// following references.
#[verifier::external_body]
fn objects_get<'a>(doc: &'a lopdf::Document, id: (u32, u16)) -> (r: Option<&'a lopdf::Object>)
    ensures
        r is Some <==> doc_model(*doc).objects.contains_key(id),
        r matches Some(o) ==> obj_model(*o) == doc_model(*doc).objects[id],
{
    doc.objects.get(&id)
}

/// Relies on lopdf::Object::as_reference: succeeds exactly on a
/// reference object and returns the id it names.
#[verifier::external_body]
fn object_as_reference(o: &lopdf::Object) -> (r: Result<(u32, u16), CrackError>)
    ensures
        r matches Ok(id) ==> obj_model(*o) == ObjModel::Ref(id.0, id.1),
        r is Err <==> !(obj_model(*o) is Ref),
        r matches Err(e) ==> e == CrackError::UnsupportedFormatError,
{
    match o.as_reference() {
        Ok(id) => Ok(id),
        Err(_) => Err(CrackError::UnsupportedFormatError),
    }
}

/// Relies on lopdf::Object::as_dict: succeeds exactly on a dictionary
/// object and returns it.
#[verifier::external_body]
fn object_as_dict<'a>(o: &'a lopdf::Object) -> (r: Result<&'a lopdf::Dictionary, CrackError>)
    ensures
        r matches Ok(d) ==> obj_model(*o) == ObjModel::Dict(dict_model(*d)),
        r is Err <==> !(obj_model(*o) is Dict),
        r matches Err(e) ==> e == CrackError::UnsupportedFormatError,
{
    match o.as_dict() {
        Ok(d) => Ok(d),
        Err(_) => Err(CrackError::UnsupportedFormatError),
    }
}

/// Relies on lopdf::Object::as_str: succeeds exactly on a string
/// object and returns its raw bytes.
#[verifier::external_body]
fn object_as_bytes(o: &lopdf::Object) -> (r: Result<Vec<u8>, CrackError>)
    ensures
        r matches Ok(v) ==> obj_model(*o) == ObjModel::Bytes(v@),
        r is Err <==> !(obj_model(*o) is Bytes),
        r matches Err(e) ==> e == CrackError::UnsupportedFormatError,
{
    match o.as_str() {
        Ok(s) => Ok(s.to_vec()),
        Err(_) => Err(CrackError::UnsupportedFormatError),
    }
}

/// Relies on lopdf::Object::as_name: succeeds exactly on a name
/// object and returns its bytes.
#[verifier::external_body]
fn object_as_name(o: &lopdf::Object) -> (r: Result<Vec<u8>, CrackError>)
    ensures
        r matches Ok(v) ==> obj_model(*o) == ObjModel::Name(v@),
        r is Err <==> !(obj_model(*o) is Name),
        r matches Err(e) ==> e == CrackError::UnsupportedFormatError,
{
    match o.as_name() {
        Ok(s) => Ok(s.to_vec()),
        Err(_) => Err(CrackError::UnsupportedFormatError),
    }
}

/// Relies on lopdf::Object::as_i64: succeeds exactly on an integer
/// object and returns its value.
#[verifier::external_body]
fn object_as_int(o: &lopdf::Object) -> (r: Result<i64, CrackError>)
    ensures
        r matches Ok(v) ==> obj_model(*o) == ObjModel::Int(v as int),
        r is Err <==> !(obj_model(*o) is Int),
        r matches Err(e) ==> e == CrackError::UnsupportedFormatError,
{
    match o.as_i64() {
        Ok(v) => Ok(v),
        Err(_) => Err(CrackError::UnsupportedFormatError),
    }
}

/// Relies on lopdf::Object::as_array: succeeds exactly on an array
/// object and returns its elements.
#[verifier::external_body]
fn object_as_array<'a>(o: &'a lopdf::Object) -> (r: Result<&'a Vec<lopdf::Object>, CrackError>)
    ensures
        r matches Ok(a) ==> (obj_model(*o) matches ObjModel::Array(s) && s.len() == a@.len()
            && forall|j: int| 0 <= j < s.len() ==> #[trigger] obj_model(a@[j]) == s[j]),
        r is Err <==> !(obj_model(*o) is Array),
        r matches Err(e) ==> e == CrackError::UnsupportedFormatError,
{
    match o.as_array() {
        Ok(a) => Ok(a),
        Err(_) => Err(CrackError::UnsupportedFormatError),
    }
}

/// The trailer key `Encrypt`.
pub open spec fn key_encrypt() -> Seq<u8> {
    seq![69u8, 110u8, 99u8, 114u8, 121u8, 112u8, 116u8]
}

/// The trailer key `ID`.
pub open spec fn key_id() -> Seq<u8> {
    seq![73u8, 68u8]
}

/// The dictionary key `Filter`.
pub open spec fn key_filter() -> Seq<u8> {
    seq![70u8, 105u8, 108u8, 116u8, 101u8, 114u8]
}

/// The dictionary key `V`.
pub open spec fn key_v() -> Seq<u8> {
    seq![86u8]
}

/// The dictionary key `R`.
pub open spec fn key_r() -> Seq<u8> {
    seq![82u8]
}

/// The dictionary key `Length`.
pub open spec fn key_length() -> Seq<u8> {
    seq![76u8, 101u8, 110u8, 103u8, 116u8, 104u8]
}

/// The dictionary key `O`.
pub open spec fn key_o() -> Seq<u8> {
    seq![79u8]
}

/// The dictionary key `U`.
pub open spec fn key_u() -> Seq<u8> {
    seq![85u8]
}

/// The dictionary key `P`.
pub open spec fn key_p() -> Seq<u8> {
    seq![80u8]
}

/// The name of the standard security handler.
pub open spec fn name_standard() -> Seq<u8> {
    seq![83u8, 116u8, 97u8, 110u8, 100u8, 97u8, 114u8, 100u8]
}

/// The encryption dictionary the trailer declares: directly, or
/// through one reference into the object table.
pub open spec fn enc_dict_of(m: DocModel) -> Option<Map<Seq<u8>, ObjModel>> {
    if !m.trailer.contains_key(key_encrypt()) {
        None
    } else {
        match m.trailer[key_encrypt()] {
            ObjModel::Dict(d) => Some(d),
            ObjModel::Ref(a, b) => if m.objects.contains_key((a, b)) {
                match m.objects[(a, b)] {
                    ObjModel::Dict(d) => Some(d),
                    _ => None,
                }
            } else {
                None
            },
            _ => None,
        }
    }
}

/// An integer entry of a dictionary model, if present with that shape.
pub open spec fn int_entry(d: Map<Seq<u8>, ObjModel>, key: Seq<u8>) -> Option<int> {
    if d.contains_key(key) {
        match d[key] {
            ObjModel::Int(i) => Some(i),
            _ => None,
        }
    } else {
        None
    }
}

/// A string entry of a dictionary model, if present with that shape.
pub open spec fn bytes_entry(d: Map<Seq<u8>, ObjModel>, key: Seq<u8>) -> Option<Seq<u8>> {
    if d.contains_key(key) {
        match d[key] {
            ObjModel::Bytes(b) => Some(b),
            _ => None,
        }
    } else {
        None
    }
}

/// A name entry of a dictionary model, if present with that shape.
pub open spec fn name_entry(d: Map<Seq<u8>, ObjModel>, key: Seq<u8>) -> Option<Seq<u8>> {
    if d.contains_key(key) {
        match d[key] {
            ObjModel::Name(b) => Some(b),
            _ => None,
        }
    } else {
        None
    }
}

/// The `Length` entry in bits; 40 when absent, `None` when present
/// with the wrong shape.
pub open spec fn length_entry(d: Map<Seq<u8>, ObjModel>) -> Option<int> {
    if d.contains_key(key_length()) {
        int_entry(d, key_length())
    } else {
        Some(40)
    }
}

/// The first element of the trailer's `ID` array, when it is a string.
pub open spec fn id_first(m: DocModel) -> Option<Seq<u8>> {
    if m.trailer.contains_key(key_id()) {
        match m.trailer[key_id()] {
            ObjModel::Array(s) => if s.len() >= 1 {
                match s[0] {
                    ObjModel::Bytes(b) => Some(b),
                    _ => None,
                }
            } else {
                None
            },
            _ => None,
        }
    } else {
        None
    }
}

/// The encryption material a parsed document declares.
pub struct EncMaterialG {
    /// The declared security handler name.
    pub filter: Seq<u8>,
    /// The encryption algorithm version (`V`).
    pub v: int,
    /// The security handler revision (`R`).
    pub revision: int,
    /// The key length in bits (`Length`, 40 when absent).
    pub key_bits: int,
    /// The owner-password hash (`O`).
    pub o: Seq<u8>,
    /// The user-password hash (`U`).
    pub u: Seq<u8>,
    /// The permission flags (`P`), as the document writes them.
    pub p: int,
    /// The first element of the document identifier.
    pub id: Seq<u8>,
}

/// The material of a parsed document, when every required entry is
/// present with the right shape.
pub open spec fn enc_material_of(m: DocModel) -> Option<EncMaterialG> {
    match enc_dict_of(m) {
        None => None,
        Some(enc) => {
            if name_entry(enc, key_filter()) is Some && int_entry(enc, key_v()) is Some
                && int_entry(enc, key_r()) is Some && length_entry(enc) is Some
                && bytes_entry(enc, key_o()) is Some && bytes_entry(enc, key_u()) is Some
                && int_entry(enc, key_p()) is Some && id_first(m) is Some {
                Some(EncMaterialG {
                    filter: name_entry(enc, key_filter()).unwrap(),
                    v: int_entry(enc, key_v()).unwrap(),
                    revision: int_entry(enc, key_r()).unwrap(),
                    key_bits: length_entry(enc).unwrap(),
                    o: bytes_entry(enc, key_o()).unwrap(),
                    u: bytes_entry(enc, key_u()).unwrap(),
                    p: int_entry(enc, key_p()).unwrap(),
                    id: id_first(m).unwrap(),
                })
            } else {
                None
            }
        },
    }
}

/// Material this engine's handler supports: the standard handler at
/// revision 2 or 3, a whole 40- to 128-bit RC4 key, 32-byte hashes,
/// and permission flags in signed 32-bit range.
pub open spec fn enc_supported(em: EncMaterialG) -> bool {
    &&& em.filter == name_standard()
    &&& (em.v == 1 || em.v == 2)
    &&& (em.revision == 2 || em.revision == 3)
    &&& em.key_bits % 8 == 0
    &&& 40 <= em.key_bits <= 128
    &&& em.o.len() == 32
    &&& em.u.len() == 32
    &&& -0x8000_0000 <= em.p < 0x1_0000_0000
}

/// The permission flags as the unsigned 32-bit word the key
/// derivation hashes.
pub open spec fn p_word(p: int) -> int {
    if p >= 0 {
        p
    } else {
        p + 0x1_0000_0000
    }
}

/// The supported material of a byte string, when the bytes parse as a
/// document that declares such material.
pub open spec fn loadable(bytes: Seq<u8>) -> Option<EncMaterialG> {
    match pdf_parse(bytes) {
        None => None,
        Some(m) => match enc_material_of(m) {
            None => None,
            Some(em) => if enc_supported(em) {
                Some(em)
            } else {
                None
            },
        },
    }
}

/// Builds a target from a document's raw bytes: parses it, walks to
/// its encryption dictionary, and validates the extracted material.
///
/// Fails with `ParseError` exactly when the bytes are not a
/// well-formed document, and with `UnsupportedFormatError` exactly
/// when the parsed document declares no supported encryption: no
/// `Encrypt` entry (an unencrypted document), a malformed encryption
/// dictionary, a handler other than `Standard`, a revision other than
/// 2 or 3, a ragged or out-of-range key length, hashes that are not 32
/// bytes, out-of-range permission flags, or a missing identifier.
#[verifier::rlimit(100)]
pub fn cracker_from_bytes(data: &[u8]) -> (r: Result<PDFCracker, CrackError>)
    ensures
        pdf_parse(data@) is None <==> (r matches Err(e) && e == CrackError::ParseError),
        loadable(data@) is Some <==> r is Ok,
        (pdf_parse(data@) is Some && loadable(data@) is None) <==> (r matches Err(e) && e
            == CrackError::UnsupportedFormatError),
        loadable(data@) matches Some(em) ==> (r matches Ok(c) && c.wf()
            && c.revision as int == em.revision && c.key_len as int == em.key_bits / 8
            && c.o@ == em.o && c.u@ == em.u && c.p as int == p_word(em.p) && c.id@ == em.id),
{
    let doc = match load_document(data) {
        Ok(d) => d,
        Err(e) => {
            return Err(e);
        },
    };
    let ghost m = doc_model(doc);
    // The encryption dictionary: direct, or one reference deep.
    let key_enc: Vec<u8> = vec![69u8, 110u8, 99u8, 114u8, 121u8, 112u8, 116u8];
    proof {
        assert(key_enc@ =~= key_encrypt());
    }
    let entry = match trailer_get(&doc, key_enc.as_slice()) {
        Ok(o) => o,
        Err(e) => {
            return Err(e);
        },
    };
    let enc: &lopdf::Dictionary = match object_as_dict(entry) {
        Ok(d) => d,
        Err(_) => {
            let id = match object_as_reference(entry) {
                Ok(id) => id,
                Err(e) => {
                    return Err(e);
                },
            };
            let obj = match objects_get(&doc, id) {
                Some(o) => o,
                None => {
                    return Err(CrackError::UnsupportedFormatError);
                },
            };
            match object_as_dict(obj) {
                Ok(d) => d,
                Err(e) => {
                    return Err(e);
                },
            }
        },
    };
    let ghost encm = dict_model(*enc);
    proof {
        assert(enc_dict_of(m) == Some(encm));
    }
    // The handler must be the standard one.
    let key_flt: Vec<u8> = vec![70u8, 105u8, 108u8, 116u8, 101u8, 114u8];
    proof {
        assert(key_flt@ =~= key_filter());
    }
    let filter = match dict_get(enc, key_flt.as_slice()) {
        Ok(o) => object_as_name(o),
        Err(e) => Err(e),
    };
    let filter = match filter {
        Ok(v) => v,
        Err(e) => {
            return Err(e);
        },
    };
    let standard: Vec<u8> = vec![83u8, 116u8, 97u8, 110u8, 100u8, 97u8, 114u8, 100u8];
    proof {
        assert(standard@ =~= name_standard());
    }
    if !bytes_eq(filter.as_slice(), standard.as_slice()) {
        return Err(CrackError::UnsupportedFormatError);
    }
    // Version and revision.
    let key_ver: Vec<u8> = vec![86u8];
    proof {
        assert(key_ver@ =~= key_v());
    }
    let v = match dict_get(enc, key_ver.as_slice()) {
        Ok(o) => object_as_int(o),
        Err(e) => Err(e),
    };
    let v = match v {
        Ok(x) => x,
        Err(e) => {
            return Err(e);
        },
    };
    if !(v == 1 || v == 2) {
        return Err(CrackError::UnsupportedFormatError);
    }
    let key_rev: Vec<u8> = vec![82u8];
    proof {
        assert(key_rev@ =~= key_r());
    }
    let revision = match dict_get(enc, key_rev.as_slice()) {
        Ok(o) => object_as_int(o),
        Err(e) => Err(e),
    };
    let revision = match revision {
        Ok(x) => x,
        Err(e) => {
            return Err(e);
        },
    };
    if !(revision == 2 || revision == 3) {
        return Err(CrackError::UnsupportedFormatError);
    }
    // Key length in bits; 40 when absent.
    let key_len_key: Vec<u8> = vec![76u8, 101u8, 110u8, 103u8, 116u8, 104u8];
    proof {
        assert(key_len_key@ =~= key_length());
    }
    let key_bits: i64 = match dict_get(enc, key_len_key.as_slice()) {
        Ok(obj) => match object_as_int(obj) {
            Ok(x) => x,
            Err(e) => {
                return Err(e);
            },
        },
        Err(_) => 40,
    };
    if !(40 <= key_bits && key_bits <= 128 && key_bits % 8 == 0) {
        return Err(CrackError::UnsupportedFormatError);
    }
    // Hashes and permission flags.
    let key_oh: Vec<u8> = vec![79u8];
    proof {
        assert(key_oh@ =~= key_o());
    }
    let o = match dict_get(enc, key_oh.as_slice()) {
        Ok(obj) => object_as_bytes(obj),
        Err(e) => Err(e),
    };
    let o = match o {
        Ok(x) => x,
        Err(e) => {
            return Err(e);
        },
    };
    let key_uh: Vec<u8> = vec![85u8];
    proof {
        assert(key_uh@ =~= key_u());
    }
    let u = match dict_get(enc, key_uh.as_slice()) {
        Ok(obj) => object_as_bytes(obj),
        Err(e) => Err(e),
    };
    let u = match u {
        Ok(x) => x,
        Err(e) => {
            return Err(e);
        },
    };
    let key_pf: Vec<u8> = vec![80u8];
    proof {
        assert(key_pf@ =~= key_p());
    }
    let p_raw = match dict_get(enc, key_pf.as_slice()) {
        Ok(obj) => object_as_int(obj),
        Err(e) => Err(e),
    };
    let p_raw = match p_raw {
        Ok(x) => x,
        Err(e) => {
            return Err(e);
        },
    };
    // The permission flags are a signed 32-bit value; keep its bit
    // pattern as the unsigned word the key derivation hashes.
    let p: u32 = if p_raw >= 0 {
        if p_raw > 0xffff_ffffi64 {
            return Err(CrackError::UnsupportedFormatError);
        }
        p_raw as u32
    } else {
        if p_raw < -0x8000_0000i64 {
            return Err(CrackError::UnsupportedFormatError);
        }
        (p_raw + 0x1_0000_0000i64) as u32
    };
    // The first document identifier.
    let key_idk: Vec<u8> = vec![73u8, 68u8];
    proof {
        assert(key_idk@ =~= key_id());
    }
    let ids = match trailer_get(&doc, key_idk.as_slice()) {
        Ok(obj) => object_as_array(obj),
        Err(e) => Err(e),
    };
    let ids = match ids {
        Ok(x) => x,
        Err(e) => {
            return Err(e);
        },
    };
    if ids.len() < 1 {
        return Err(CrackError::UnsupportedFormatError);
    }
    let id = match object_as_bytes(&ids[0]) {
        Ok(x) => x,
        Err(e) => {
            return Err(e);
        },
    };
    if o.len() != 32 || u.len() != 32 {
        return Err(CrackError::UnsupportedFormatError);
    }
    let ghost em = EncMaterialG {
        filter: filter@,
        v: v as int,
        revision: revision as int,
        key_bits: key_bits as int,
        o: o@,
        u: u@,
        p: p_raw as int,
        id: id@,
    };
    proof {
        assert(enc_material_of(m) == Some(em));
        assert(enc_supported(em));
        assert(loadable(data@) == Some(em));
    }
    let r = PDFCracker::new(revision as u8, key_bits as u32, o, u, p, id);
    proof {
        assert(r is Ok);
    }
    r
}

} // verus!
