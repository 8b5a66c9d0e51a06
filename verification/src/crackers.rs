//! The standard security handler's fast password test: derive the RC4
//! key from a candidate and the document's encryption material, then
//! check it against the user-password hash — never a full decryption.

use vstd::prelude::*;
use crate::errors::CrackError;
use crate::rc4::{rc4_spec, rc4_apply};

verus! {

/// The 32-byte password padding string of the standard security
/// handler.
pub open spec fn pad_seq() -> Seq<u8> {
    seq![
        0x28u8, 0xbfu8, 0x4eu8, 0x5eu8, 0x4eu8, 0x75u8, 0x8au8, 0x41u8,
        0x64u8, 0x00u8, 0x4eu8, 0x56u8, 0xffu8, 0xfau8, 0x01u8, 0x08u8,
        0x2eu8, 0x2eu8, 0x00u8, 0xb6u8, 0xd0u8, 0x68u8, 0x3eu8, 0x80u8,
        0x2fu8, 0x0cu8, 0xa9u8, 0xfeu8, 0x64u8, 0x53u8, 0x69u8, 0x7au8,
    ]
}

/// The padding string as a vector.
pub fn pad_bytes() -> (r: Vec<u8>)
    ensures
        r@ == pad_seq(),
{
    let r: Vec<u8> = vec![
        0x28u8, 0xbfu8, 0x4eu8, 0x5eu8, 0x4eu8, 0x75u8, 0x8au8, 0x41u8,
        0x64u8, 0x00u8, 0x4eu8, 0x56u8, 0xffu8, 0xfau8, 0x01u8, 0x08u8,
        0x2eu8, 0x2eu8, 0x00u8, 0xb6u8, 0xd0u8, 0x68u8, 0x3eu8, 0x80u8,
        0x2fu8, 0x0cu8, 0xa9u8, 0xfeu8, 0x64u8, 0x53u8, 0x69u8, 0x7au8,
    ];
    assert(r@ =~= pad_seq());
    r
}

/// The MD5 digest of `data`; 16 bytes, a function of `data` alone.
pub uninterp spec fn md5_of(data: Seq<u8>) -> Seq<u8>;

/// Relies on md5::compute: the MD5 digest of the input, which depends
/// on the input bytes alone and is always 16 bytes long.
#[verifier::external_body]
fn md5_digest(data: &[u8]) -> (r: Vec<u8>)
    ensures
        r@ == md5_of(data@),
        r@.len() == 16,
{
    md5::compute(data).0.to_vec()
}

/// A candidate padded or truncated to exactly 32 bytes.
pub open spec fn padded_password(pw: Seq<u8>) -> Seq<u8> {
    (pw + pad_seq()).take(32)
}

/// The permission flags as four little-endian bytes.
pub open spec fn le32(p: u32) -> Seq<u8> {
    seq![
        (p % 256) as u8,
        ((p / 256) % 256) as u8,
        ((p / 65536) % 256) as u8,
        ((p / 16777216) % 256) as u8,
    ]
}

/// `rounds` further MD5-and-truncate passes over `k`, each keeping the
/// first `n` digest bytes.
pub open spec fn rehash_rounds(k: Seq<u8>, n: nat, rounds: nat) -> Seq<u8>
    decreases rounds,
{
    if rounds == 0 {
        k
    } else {
        md5_of(rehash_rounds(k, n, (rounds - 1) as nat)).take(n as int)
    }
}

/// The RC4 key derived from a candidate password and the document's
/// encryption material.
pub open spec fn spec_derive_key(
    pw: Seq<u8>,
    o: Seq<u8>,
    p: u32,
    id: Seq<u8>,
    revision: u8,
    n: nat,
) -> Seq<u8> {
    let base = md5_of(padded_password(pw) + o + le32(p) + id).take(n as int);
    if revision >= 3 {
        rehash_rounds(base, n, 50)
    } else {
        base
    }
}

/// `key` with every byte XORed with the round number `i`.
pub open spec fn xor_key(key: Seq<u8>, i: nat) -> Seq<u8> {
    Seq::new(key.len(), |x: int| key[x] ^ (i as u8))
}

/// The user-hash recomputation rounds `i..=19` of the revision-3 check.
pub open spec fn rev3_rounds(key: Seq<u8>, t: Seq<u8>, i: nat) -> Seq<u8>
    decreases 20 - i,
{
    if i > 19 {
        t
    } else {
        rev3_rounds(key, rc4_spec(xor_key(key, i), t), i + 1)
    }
}

/// The extracted cryptographic material of one encrypted document,
/// immutable for the whole cracking session.
#[derive(Clone)]
pub struct PDFCracker {
    /// Security handler revision (2 or 3).
    pub revision: u8,
    /// RC4 key length in bytes (5 to 16).
    pub key_len: usize,
    /// The 32-byte owner-password hash (`O`).
    pub o: Vec<u8>,
    /// The 32-byte user-password hash (`U`).
    pub u: Vec<u8>,
    /// The permission flags (`P`), as an unsigned 32-bit word.
    pub p: u32,
    /// The first element of the document identifier.
    pub id: Vec<u8>,
}

/// Whether `pw` opens the document described by `c` as its user
/// password, by the standard security handler's own check.
pub open spec fn spec_test(c: PDFCracker, pw: Seq<u8>) -> bool {
    let key = spec_derive_key(pw, c.o@, c.p, c.id@, c.revision, c.key_len as nat);
    if c.revision == 2 {
        rc4_spec(key, pad_seq()) == c.u@
    } else {
        let h = md5_of(pad_seq() + c.id@);
        rev3_rounds(key, rc4_spec(key, h), 1) == c.u@.take(16)
    }
}

/// Copies `src` onto the end of `dst`.
fn append_bytes(dst: &mut Vec<u8>, src: &[u8])
    ensures
        final(dst)@ == old(dst)@ + src@,
{
    let mut i: usize = 0;
    while i < src.len()
        invariant
            i <= src@.len(),
            dst@ == old(dst)@ + src@.take(i as int),
        decreases src@.len() - i,
    {
        let b = src[i];
        dst.push(b);
        assert(dst@ =~= old(dst)@ + src@.take((i + 1) as int));
        i = i + 1;
    }
    assert(old(dst)@ + src@.take(src@.len() as int) =~= old(dst)@ + src@);
}

/// Whether two byte strings are equal.
pub(crate) fn bytes_eq(a: &[u8], b: &[u8]) -> (r: bool)
    ensures
        r <==> a@ == b@,
{
    if a.len() != b.len() {
        return false;
    }
    let mut i: usize = 0;
    while i < a.len()
        invariant
            i <= a@.len(),
            a@.len() == b@.len(),
            forall|j: int| 0 <= j < i ==> a@[j] == b@[j],
        decreases a@.len() - i,
    {
        if a[i] != b[i] {
            return false;
        }
        i = i + 1;
    }
    proof {
        assert(a@ =~= b@);
    }
    true
}

impl PDFCracker {
    /// Internal consistency of the extracted material.
    pub open spec fn wf(&self) -> bool {
        &&& (self.revision == 2 || self.revision == 3)
        &&& self.o@.len() == 32
        &&& self.u@.len() == 32
        &&& 5 <= self.key_len <= 16
    }

    /// Builds a target from the fields of a document's encryption
    /// dictionary: handler revision, key length in bits, owner and user
    /// hashes, permission flags and the first document identifier.
    ///
    /// Fails with `UnsupportedFormatError` when the revision is not 2
    /// or 3, the key length is not a whole number of 5 to 16 bytes, or
    /// either hash is not exactly 32 bytes.
    pub fn new(
        revision: u8,
        key_bits: u32,
        o: Vec<u8>,
        u: Vec<u8>,
        p: u32,
        id: Vec<u8>,
    ) -> (r: Result<Self, CrackError>)
        ensures
            (revision == 2 || revision == 3) && key_bits % 8 == 0 && 40 <= key_bits <= 128
                && o@.len() == 32 && u@.len() == 32 <==> (r matches Ok(c) && c.wf()
                && c.revision == revision && c.key_len == key_bits / 8 && c.o@ == o@
                && c.u@ == u@ && c.p == p && c.id@ == id@),
            !((revision == 2 || revision == 3) && key_bits % 8 == 0 && 40 <= key_bits <= 128
                && o@.len() == 32 && u@.len() == 32) <==> (r matches Err(e) && e
                == CrackError::UnsupportedFormatError),
    {
        if !(revision == 2 || revision == 3) {
            return Err(CrackError::UnsupportedFormatError);
        }
        if !(key_bits % 8 == 0 && 40 <= key_bits && key_bits <= 128) {
            return Err(CrackError::UnsupportedFormatError);
        }
        if o.len() != 32 || u.len() != 32 {
            return Err(CrackError::UnsupportedFormatError);
        }
        let key_len = (key_bits / 8) as usize;
        Ok(PDFCracker { revision, key_len, o, u, p, id })
    }

    /// Tests one candidate user password against the document's
    /// security handler.
    pub fn test_password(&self, pw: &[u8]) -> (r: bool)
        requires
            self.wf(),
        ensures
            r == spec_test(*self, pw@),
    {
        // Derivation input: padded password, O, P little-endian, ID.
        let mut buf: Vec<u8> = Vec::new();
        let pad = pad_bytes();
        let take: usize = if pw.len() < 32 {
            pw.len()
        } else {
            32
        };
        let mut i: usize = 0;
        while i < take
            invariant
                i <= take,
                take == if pw@.len() < 32 { pw@.len() } else { 32nat },
                buf@ == pw@.take(i as int),
            decreases take - i,
        {
            let b = pw[i];
            buf.push(b);
            assert(buf@ =~= pw@.take((i + 1) as int));
            i = i + 1;
        }
        assert(buf@ =~= pw@.take(take as int) + pad_seq().take(0));
        while buf.len() < 32
            invariant
                buf@.len() <= 32,
                pad@ == pad_seq(),
                buf@ == pw@.take(take as int) + pad_seq().take((buf@.len() - take) as int),
                take == if pw@.len() < 32 { pw@.len() } else { 32nat },
                take <= buf@.len(),
            decreases 32 - buf@.len(),
        {
            let b = pad[buf.len() - take];
            buf.push(b);
            assert(buf@ =~= pw@.take(take as int) + pad_seq().take((buf@.len() - take) as int));
        }
        proof {
            assert(buf@ =~= padded_password(pw@));
        }
        append_bytes(&mut buf, self.o.as_slice());
        let p0 = (self.p % 256) as u8;
        let p1 = ((self.p / 256) % 256) as u8;
        let p2 = ((self.p / 65536) % 256) as u8;
        let p3 = ((self.p / 16777216) % 256) as u8;
        buf.push(p0);
        buf.push(p1);
        buf.push(p2);
        buf.push(p3);
        append_bytes(&mut buf, self.id.as_slice());
        proof {
            assert(buf@ =~= padded_password(pw@) + self.o@ + le32(self.p) + self.id@);
        }
        // Key derivation.
        let mut key = md5_digest(buf.as_slice());
        key.truncate(self.key_len);
        assert(key@.len() == self.key_len);
        let ghost base = md5_of(padded_password(pw@) + self.o@ + le32(self.p) + self.id@).take(
            self.key_len as int,
        );
        assert(key@ == base);
        if self.revision >= 3 {
            let mut round: usize = 0;
            while round < 50
                invariant
                    round <= 50,
                    5 <= self.key_len <= 16,
                    key@ == rehash_rounds(base, self.key_len as nat, round as nat),
                    key@.len() == self.key_len,
                decreases 50 - round,
            {
                let mut d = md5_digest(key.as_slice());
                d.truncate(self.key_len);
                key = d;
                round = round + 1;
            }
        }
        let ghost dkey = spec_derive_key(
            pw@,
            self.o@,
            self.p,
            self.id@,
            self.revision,
            self.key_len as nat,
        );
        assert(key@ == dkey);
        assert(key@.len() >= 1);
        // The check itself.
        if self.revision == 2 {
            let ct = rc4_apply(key.as_slice(), pad.as_slice());
            bytes_eq(ct.as_slice(), self.u.as_slice())
        } else {
            let mut hin = pad_bytes();
            append_bytes(&mut hin, self.id.as_slice());
            let h = md5_digest(hin.as_slice());
            let mut t = rc4_apply(key.as_slice(), h.as_slice());
            let mut i: usize = 1;
            while i < 20
                invariant
                    1 <= i <= 20,
                    key@ == dkey,
                    key@.len() >= 1,
                    rev3_rounds(dkey, rc4_spec(dkey, md5_of(pad_seq() + self.id@)), 1)
                        == rev3_rounds(dkey, t@, i as nat),
                decreases 20 - i,
            {
                let mut xk: Vec<u8> = Vec::new();
                let mut x: usize = 0;
                while x < key.len()
                    invariant
                        x <= key@.len(),
                        i < 256,
                        xk@ == xor_key(key@, i as nat).take(x as int),
                    decreases key@.len() - x,
                {
                    let b = key[x] ^ (i as u8);
                    xk.push(b);
                    assert(xk@ =~= xor_key(key@, i as nat).take((x + 1) as int));
                    x = x + 1;
                }
                proof {
                    assert(xk@ =~= xor_key(key@, i as nat));
                }
                let t2 = rc4_apply(xk.as_slice(), t.as_slice());
                t = t2;
                i = i + 1;
            }
            let mut utail: Vec<u8> = Vec::new();
            let mut x: usize = 0;
            while x < 16
                invariant
                    x <= 16,
                    self.u@.len() == 32,
                    utail@ == self.u@.take(x as int),
                decreases 16 - x,
            {
                let b = self.u[x];
                utail.push(b);
                assert(utail@ =~= self.u@.take((x + 1) as int));
                x = x + 1;
            }
            bytes_eq(t.as_slice(), utail.as_slice())
        }
    }
}

} // verus!
