//! The RC4 stream cipher, as the standard security handler of the
//! document format prescribes it: key scheduling over a 256-byte state,
//! then one keystream byte XORed into each data byte.

use vstd::prelude::*;

verus! {

/// `s` with the entries at `a` and `b` exchanged.
pub open spec fn swap_seq(s: Seq<u8>, a: int, b: int) -> Seq<u8> {
    s.update(a, s[b]).update(b, s[a])
}

/// The identity permutation, the state before key scheduling.
pub open spec fn rc4_init_state() -> Seq<u8> {
    Seq::new(256, |i: int| i as u8)
}

/// The state after running key scheduling from position `i` with
/// running index `j` on state `s`.
pub open spec fn ksa_from(key: Seq<u8>, s: Seq<u8>, j: nat, i: nat) -> Seq<u8>
    decreases 256 - i,
{
    if i >= 256 || s.len() != 256 {
        s
    } else {
        let j2 = ((j + s[i as int] + key[(i as int % key.len() as int)]) % 256) as nat;
        ksa_from(key, swap_seq(s, i as int, j2 as int), j2, i + 1)
    }
}

/// The keystream-XORed bytes of `data[n..]`, generated from state `s`
/// with indices `i` and `j`.
pub open spec fn prga_from(s: Seq<u8>, i: nat, j: nat, data: Seq<u8>, n: nat) -> Seq<u8>
    decreases data.len() - n,
{
    if n >= data.len() || s.len() != 256 {
        Seq::empty()
    } else {
        let i2 = ((i + 1) % 256) as nat;
        let j2 = ((j + s[i2 as int]) % 256) as nat;
        let s2 = swap_seq(s, i2 as int, j2 as int);
        let k = s2[(s2[i2 as int] + s2[j2 as int]) % 256];
        seq![data[n as int] ^ k] + prga_from(s2, i2, j2, data, n + 1)
    }
}

/// RC4 applied to `data` under `key`.
pub open spec fn rc4_spec(key: Seq<u8>, data: Seq<u8>) -> Seq<u8> {
    prga_from(ksa_from(key, rc4_init_state(), 0, 0), 0, 0, data, 0)
}

/// The generated bytes are exactly as long as the data.
pub proof fn lemma_prga_len(s: Seq<u8>, i: nat, j: nat, data: Seq<u8>, n: nat)
    requires
        s.len() == 256,
        n <= data.len(),
    ensures
        prga_from(s, i, j, data, n).len() == data.len() - n,
    decreases data.len() - n,
{
    if n >= data.len() {
    } else {
        let i2 = ((i + 1) % 256) as nat;
        let j2 = ((j + s[i2 as int]) % 256) as nat;
        let s2 = swap_seq(s, i2 as int, j2 as int);
        lemma_prga_len(s2, i2, j2, data, n + 1);
    }
}

/// RC4 keeps the length of what it enciphers.
pub proof fn lemma_rc4_len(key: Seq<u8>, data: Seq<u8>)
    ensures
        rc4_spec(key, data).len() == data.len(),
{
    let s = ksa_from(key, rc4_init_state(), 0, 0);
    lemma_ksa_len(key, rc4_init_state(), 0, 0);
    lemma_prga_len(s, 0, 0, data, 0);
}

/// Key scheduling keeps the state 256 bytes long.
pub proof fn lemma_ksa_len(key: Seq<u8>, s: Seq<u8>, j: nat, i: nat)
    requires
        s.len() == 256,
    ensures
        ksa_from(key, s, j, i).len() == 256,
    decreases 256 - i,
{
    if i >= 256 {
    } else {
        let j2 = ((j + s[i as int] + key[(i as int % key.len() as int)]) % 256) as nat;
        lemma_ksa_len(key, swap_seq(s, i as int, j2 as int), j2, i + 1);
    }
}

/// RC4 applied to `data` under `key`.
pub fn rc4_apply(key: &[u8], data: &[u8]) -> (r: Vec<u8>)
    requires
        key@.len() >= 1,
    ensures
        r@ == rc4_spec(key@, data@),
        r@.len() == data@.len(),
{
    // State initialisation.
    let mut s: Vec<u8> = Vec::new();
    let mut i: usize = 0;
    while i < 256
        invariant
            i <= 256,
            s@ == Seq::new(i as nat, |x: int| x as u8),
        decreases 256 - i,
    {
        s.push(i as u8);
        assert(s@ =~= Seq::new((i + 1) as nat, |x: int| x as u8));
        i = i + 1;
    }
    assert(s@ =~= rc4_init_state());
    // Key scheduling.
    let ghost goal = ksa_from(key@, rc4_init_state(), 0, 0);
    let mut j: usize = 0;
    let mut i: usize = 0;
    while i < 256
        invariant
            i <= 256,
            j < 256,
            key@.len() >= 1,
            s@.len() == 256,
            goal == ksa_from(key@, s@, j as nat, i as nat),
        decreases 256 - i,
    {
        let ghost s0 = s@;
        let kb = key[i % key.len()];
        let si = s[i];
        let j2 = (j + si as usize + kb as usize) % 256;
        let sj = s[j2];
        s[i] = sj;
        s[j2] = si;
        proof {
            assert(s@ =~= swap_seq(s0, i as int, j2 as int));
        }
        j = j2;
        i = i + 1;
    }
    assert(goal == s@);
    // Keystream generation.
    let ghost total = rc4_spec(key@, data@);
    proof {
        assert(total == Seq::<u8>::empty() + prga_from(s@, 0, 0, data@, 0));
        assert(Seq::<u8>::empty() + prga_from(s@, 0, 0, data@, 0) =~= prga_from(
            s@,
            0,
            0,
            data@,
            0,
        ));
    }
    let mut out: Vec<u8> = Vec::new();
    let mut ci: usize = 0;
    let mut cj: usize = 0;
    let mut n: usize = 0;
    while n < data.len()
        invariant
            n <= data@.len(),
            ci < 256,
            cj < 256,
            s@.len() == 256,
            total == rc4_spec(key@, data@),
            total == out@ + prga_from(s@, ci as nat, cj as nat, data@, n as nat),
        decreases data@.len() - n,
    {
        let ghost s0 = s@;
        let i2 = (ci + 1) % 256;
        let j2 = (cj + s[i2] as usize) % 256;
        let si = s[i2];
        let sj = s[j2];
        s[i2] = sj;
        s[j2] = si;
        proof {
            assert(s@ =~= swap_seq(s0, i2 as int, j2 as int));
        }
        let k = s[(s[i2] as usize + s[j2] as usize) % 256];
        let b = data[n] ^ k;
        out.push(b);
        proof {
            assert(prga_from(s0, ci as nat, cj as nat, data@, n as nat) == seq![b] + prga_from(
                s@,
                i2 as nat,
                j2 as nat,
                data@,
                (n + 1) as nat,
            ));
            assert((out@.drop_last()) + (seq![b] + prga_from(
                s@,
                i2 as nat,
                j2 as nat,
                data@,
                (n + 1) as nat,
            )) =~= out@ + prga_from(s@, i2 as nat, j2 as nat, data@, (n + 1) as nat));
        }
        ci = i2;
        cj = j2;
        n = n + 1;
    }
    proof {
        assert(total =~= out@);
        lemma_rc4_len(key@, data@);
    }
    out
}

} // verus!
