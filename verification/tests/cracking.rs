//! The password test, the cracking driver, and document loading,
//! checked against an independently computed security handler.

use pdfrip_engine::crack_file;
use pdfrip_engine::crackers::{pad_bytes, PDFCracker};
use pdfrip_engine::errors::CrackError;
use pdfrip_engine::load::cracker_from_bytes;
use pdfrip_engine::producers::custom_query::CustomQuery;
use pdfrip_engine::producers::dates::{Date, DateProducer};
use pdfrip_engine::producers::default_query::DefaultQuery;
use pdfrip_engine::producers::dictionary::LineProducer;
use pdfrip_engine::producers::number_ranges::RangeProducer;
use pdfrip_engine::producers::Producer;
use pdfrip_engine::rc4::rc4_apply;

/// The RC4 key of the standard security handler, computed here with
/// the md5 crate directly, independently of the library's wrapper.
fn derive_key(password: &[u8], o: &[u8], p: u32, id: &[u8], revision: u8, key_bits: u32) -> Vec<u8> {
    let pad = pad_bytes();
    let mut padded = password.to_vec();
    padded.extend_from_slice(&pad);
    padded.truncate(32);
    let mut data = padded;
    data.extend_from_slice(o);
    data.extend_from_slice(&p.to_le_bytes());
    data.extend_from_slice(id);
    let n = (key_bits / 8) as usize;
    let mut key = md5::compute(&data).0[..n].to_vec();
    if revision >= 3 {
        for _ in 0..50 {
            key = md5::compute(&key).0[..n].to_vec();
        }
    }
    key
}

/// The `U` entry a document with the given material and user password
/// would carry, per handler revision.
fn user_hash(password: &[u8], o: &[u8], p: u32, id: &[u8], revision: u8, key_bits: u32) -> Vec<u8> {
    let pad = pad_bytes();
    let key = derive_key(password, o, p, id, revision, key_bits);
    if revision == 2 {
        rc4_apply(&key, &pad)
    } else {
        let mut hin = pad.clone();
        hin.extend_from_slice(id);
        let h = md5::compute(&hin).0.to_vec();
        let mut t = rc4_apply(&key, &h);
        for i in 1..=19u8 {
            let xk: Vec<u8> = key.iter().map(|b| b ^ i).collect();
            t = rc4_apply(&xk, &t);
        }
        let mut u = t;
        u.extend_from_slice(&[0u8; 16]);
        u
    }
}

fn sample_cracker(revision: u8, key_bits: u32, password: &[u8]) -> PDFCracker {
    let o: Vec<u8> = (0..32u8).collect();
    let p: u32 = 0xffff_ffc0;
    let id: Vec<u8> = vec![0xde, 0xad, 0xbe, 0xef, 0x01, 0x23, 0x45, 0x67];
    let u = user_hash(password, &o, p, &id, revision, key_bits);
    PDFCracker::new(revision, key_bits, o, u, p, id).unwrap()
}

#[test]
fn password_test_revision_two() {
    let c = sample_cracker(2, 40, b"1234");
    assert!(c.test_password(b"1234"));
    assert!(!c.test_password(b"1235"));
    assert!(!c.test_password(b""));
}

#[test]
fn password_test_revision_three() {
    let c = sample_cracker(3, 128, b"secret7");
    assert!(c.test_password(b"secret7"));
    assert!(!c.test_password(b"secret8"));
    assert!(!c.test_password(b"secret"));
}

#[test]
fn crack_range_finds_the_password() {
    let c = sample_cracker(2, 40, b"1234");
    let producer = Producer::Range(RangeProducer::new(1000, 9999, false).unwrap());
    let res = crack_file(4, c, producer).unwrap();
    assert_eq!(res, Some(b"1234".to_vec()));
}

#[test]
fn crack_dictionary_without_the_password_exhausts() {
    let c = sample_cracker(2, 40, b"1234");
    let producer = Producer::Wordlist(LineProducer::from_bytes(b"alpha\nbeta\n42\n"));
    let res = crack_file(4, c, producer).unwrap();
    assert_eq!(res, None);
}

#[test]
fn crack_zero_workers_rejected() {
    let c = sample_cracker(2, 40, b"1234");
    let producer = Producer::Range(RangeProducer::new(0, 9, false).unwrap());
    match crack_file(0, c, producer) {
        Err(e) => assert_eq!(e, CrackError::InvalidConfigError),
        Ok(_) => panic!("a zero thread count must be rejected"),
    }
}

#[test]
fn cracker_rejects_unsupported_material() {
    let o: Vec<u8> = vec![0; 32];
    let u: Vec<u8> = vec![0; 32];
    match PDFCracker::new(5, 40, o.clone(), u.clone(), 0, Vec::new()) {
        Err(e) => assert_eq!(e, CrackError::UnsupportedFormatError),
        Ok(_) => panic!("an unknown revision must be rejected"),
    }
    match PDFCracker::new(2, 41, o.clone(), u.clone(), 0, Vec::new()) {
        Err(e) => assert_eq!(e, CrackError::UnsupportedFormatError),
        Ok(_) => panic!("a ragged key length must be rejected"),
    }
    match PDFCracker::new(2, 40, vec![0; 31], u, 0, Vec::new()) {
        Err(e) => assert_eq!(e, CrackError::UnsupportedFormatError),
        Ok(_) => panic!("a short owner hash must be rejected"),
    }
}

/// A minimal encrypted document, written with lopdf, whose user
/// password is `password`.
fn sample_document(password: &[u8]) -> Vec<u8> {
    let o: Vec<u8> = (100..132u8).collect();
    let p_signed: i64 = -64;
    let p: u32 = (p_signed + 0x1_0000_0000) as u32;
    let id: Vec<u8> = vec![7, 7, 7, 7, 1, 2, 3, 4];
    let u = user_hash(password, &o, p, &id, 2, 40);

    let mut doc = lopdf::Document::with_version("1.4");
    let mut pages = lopdf::Dictionary::new();
    pages.set("Type", "Pages");
    pages.set("Count", 0i64);
    let pages_id = doc.add_object(pages);
    let mut catalog = lopdf::Dictionary::new();
    catalog.set("Type", "Catalog");
    catalog.set("Pages", pages_id);
    let catalog_id = doc.add_object(catalog);
    let mut encrypt = lopdf::Dictionary::new();
    encrypt.set("Filter", "Standard");
    encrypt.set("V", 1i64);
    encrypt.set("R", 2i64);
    encrypt.set("Length", 40i64);
    encrypt.set("O", lopdf::Object::String(o, lopdf::StringFormat::Hexadecimal));
    encrypt.set("U", lopdf::Object::String(u, lopdf::StringFormat::Hexadecimal));
    encrypt.set("P", p_signed);
    let encrypt_id = doc.add_object(encrypt);
    doc.trailer.set("Root", catalog_id);
    doc.trailer.set("Encrypt", encrypt_id);
    doc.trailer.set(
        "ID",
        lopdf::Object::Array(vec![
            lopdf::Object::String(id.clone(), lopdf::StringFormat::Hexadecimal),
            lopdf::Object::String(id, lopdf::StringFormat::Hexadecimal),
        ]),
    );
    let mut out: Vec<u8> = Vec::new();
    doc.save_to(&mut out).unwrap();
    out
}

#[test]
fn end_to_end_range_crack_of_a_document() {
    let bytes = sample_document(b"1234");
    let cracker = cracker_from_bytes(&bytes).unwrap();
    let producer = Producer::Range(RangeProducer::new(1000, 9999, false).unwrap());
    let res = crack_file(4, cracker, producer).unwrap();
    assert_eq!(res, Some(b"1234".to_vec()));
}

#[test]
fn end_to_end_wordlist_without_the_password() {
    let bytes = sample_document(b"1234");
    let cracker = cracker_from_bytes(&bytes).unwrap();
    let producer = Producer::Wordlist(LineProducer::from_bytes(b"letmein\nhunter2\n9999\n"));
    let res = crack_file(4, cracker, producer).unwrap();
    assert_eq!(res, None);
}

#[test]
fn loading_rejects_bad_documents() {
    match cracker_from_bytes(b"not a document at all") {
        Err(e) => assert_eq!(e, CrackError::ParseError),
        Ok(_) => panic!("garbage bytes must be rejected"),
    }
    let mut doc = lopdf::Document::with_version("1.4");
    let mut pages = lopdf::Dictionary::new();
    pages.set("Type", "Pages");
    pages.set("Count", 0i64);
    let pages_id = doc.add_object(pages);
    let mut catalog = lopdf::Dictionary::new();
    catalog.set("Type", "Catalog");
    catalog.set("Pages", pages_id);
    let catalog_id = doc.add_object(catalog);
    doc.trailer.set("Root", catalog_id);
    let mut out: Vec<u8> = Vec::new();
    doc.save_to(&mut out).unwrap();
    match cracker_from_bytes(&out) {
        Err(e) => assert_eq!(e, CrackError::UnsupportedFormatError),
        Ok(_) => panic!("an unencrypted document must be rejected"),
    }
}

#[test]
fn crack_through_a_template_producer() {
    let c = sample_cracker(2, 40, b"7x");
    let producer = Producer::Custom(CustomQuery::new(b"?d?l", false).unwrap());
    let res = crack_file(2, c, producer).unwrap();
    assert_eq!(res, Some(b"7x".to_vec()));
}

#[test]
fn crack_through_a_date_producer() {
    let c = sample_cracker(3, 128, b"20240229");
    let start = Date { year: 2024, month: 2, day: 1 };
    let end = Date { year: 2024, month: 3, day: 31 };
    let producer = Producer::Dates(DateProducer::new(start, end).unwrap());
    let res = crack_file(2, c, producer).unwrap();
    assert_eq!(res, Some(b"20240229".to_vec()));
}

#[test]
fn crack_through_a_brute_force_producer() {
    let c = sample_cracker(2, 40, b"ca");
    let alphabet = vec![b'a', b'b', b'c'];
    let producer = Producer::BruteForce(DefaultQuery::new(alphabet, 1, 3).unwrap());
    let res = crack_file(2, c, producer).unwrap();
    assert_eq!(res, Some(b"ca".to_vec()));
}

#[test]
fn loading_rejects_a_non_standard_handler() {
    let o: Vec<u8> = (100..132u8).collect();
    let u: Vec<u8> = vec![0; 32];
    let id: Vec<u8> = vec![7, 7, 7, 7];
    let mut doc = lopdf::Document::with_version("1.4");
    let mut pages = lopdf::Dictionary::new();
    pages.set("Type", "Pages");
    pages.set("Count", 0i64);
    let pages_id = doc.add_object(pages);
    let mut catalog = lopdf::Dictionary::new();
    catalog.set("Type", "Catalog");
    catalog.set("Pages", pages_id);
    let catalog_id = doc.add_object(catalog);
    let mut encrypt = lopdf::Dictionary::new();
    encrypt.set("Filter", "HomeBrew");
    encrypt.set("V", 1i64);
    encrypt.set("R", 2i64);
    encrypt.set("Length", 40i64);
    encrypt.set("O", lopdf::Object::String(o, lopdf::StringFormat::Hexadecimal));
    encrypt.set("U", lopdf::Object::String(u, lopdf::StringFormat::Hexadecimal));
    encrypt.set("P", -64i64);
    let encrypt_id = doc.add_object(encrypt);
    doc.trailer.set("Root", catalog_id);
    doc.trailer.set("Encrypt", encrypt_id);
    doc.trailer.set(
        "ID",
        lopdf::Object::Array(vec![
            lopdf::Object::String(id.clone(), lopdf::StringFormat::Hexadecimal),
            lopdf::Object::String(id, lopdf::StringFormat::Hexadecimal),
        ]),
    );
    let mut out: Vec<u8> = Vec::new();
    doc.save_to(&mut out).unwrap();
    match cracker_from_bytes(&out) {
        Err(e) => assert_eq!(e, CrackError::UnsupportedFormatError),
        Ok(_) => panic!("a non-standard security handler must be rejected"),
    }
}
