//! Engine for recovering the password of an encrypted PDF document:
//! lazy candidate producers over several enumeration strategies, a
//! security-handler password test, and a cracking driver.

pub mod crackers;
pub mod digits;
pub mod errors;
pub mod load;
pub mod odometer;
pub mod producers;
pub mod rc4;

use vstd::prelude::*;
use crate::crackers::{PDFCracker, spec_test};
use crate::errors::CrackError;
use crate::producers::Producer;

verus! {

/// The candidate at position `i` of `space` is the first one that
/// opens the document described by `c`.
pub open spec fn found_at(c: PDFCracker, space: Seq<Seq<u8>>, i: int) -> bool {
    &&& 0 <= i < space.len()
    &&& spec_test(c, space[i])
    &&& forall|j: int| 0 <= j < i ==> !spec_test(c, #[trigger] space[j])
}

/// When a space holds exactly one candidate that opens the document,
/// at position `k`, the driver's result — the first match, wherever it
/// stands — is exactly the candidate at `k`.
pub proof fn lemma_unique_match(c: PDFCracker, space: Seq<Seq<u8>>, k: int, i: int)
    requires
        0 <= k < space.len(),
        spec_test(c, space[k]),
        forall|j: int| 0 <= j < space.len() && j != k ==> !spec_test(c, #[trigger] space[j]),
        found_at(c, space, i),
    ensures
        i == k,
        space[i] == space[k],
{
}

/// When no candidate of a space opens the document, no position of it
/// can be reported as a match: an empty-handed run has covered the
/// whole space.
pub proof fn lemma_exhaustion_conclusive(c: PDFCracker, space: Seq<Seq<u8>>, i: int)
    requires
        forall|j: int| 0 <= j < space.len() ==> !spec_test(c, #[trigger] space[j]),
    ensures
        !found_at(c, space, i),
{
}

/// Drives the producer's candidates against the target until one opens
/// the document or the space is exhausted.
///
/// Fails with `InvalidConfigError` exactly when `no_workers` is zero;
/// the session then never starts.  Otherwise returns the first
/// candidate of the producer's space that passes the target's password
/// test, or `None` after the whole space has been tested in vain.
pub fn crack_file(no_workers: usize, cracker: PDFCracker, producer: Producer) -> (r: Result<
    Option<Vec<u8>>,
    CrackError,
>)
    requires
        cracker.wf(),
        producer.wf(),
    ensures
        no_workers == 0 <==> (r matches Err(e) && e == CrackError::InvalidConfigError),
        no_workers > 0 ==> (r matches Ok(res) && match res {
            Option::None => forall|i: int| 0 <= i < producer.remaining().len()
                ==> !spec_test(cracker, #[trigger] producer.remaining()[i]),
            Option::Some(pw) => exists|i: int| found_at(cracker, producer.remaining(), i)
                && pw@ == producer.remaining()[i],
        }),
{
    if no_workers == 0 {
        return Err(CrackError::InvalidConfigError);
    }
    let ghost space = producer.remaining();
    let mut prod = producer;
    let mut result: Option<Vec<u8>> = None;
    let mut finished: bool = false;
    while !finished
        invariant
            cracker.wf(),
            prod.wf(),
            space == producer.remaining(),
            prod.remaining().len() <= space.len(),
            space.skip(space.len() - prod.remaining().len()) == prod.remaining(),
            result is None ==> forall|j: int| 0 <= j < space.len() - prod.remaining().len()
                ==> !spec_test(cracker, #[trigger] space[j]),
            !finished ==> result is None,
            finished ==> match result {
                Option::None => prod.remaining().len() == 0,
                Option::Some(pw) => exists|i: int| found_at(cracker, space, i) && pw@ == space[i],
            },
        decreases 2 * prod.remaining().len() + (if finished { 0int } else { 1int }),
    {
        let ghost k = space.len() - prod.remaining().len();
        match prod.next() {
            Option::None => {
                finished = true;
            },
            Option::Some(cand) => {
                proof {
                    assert(cand@ == space.skip(k)[0]);
                    assert(cand@ == space[k]);
                    assert(space.skip(k).drop_first() =~= space.skip(k + 1));
                }
                if cracker.test_password(cand.as_slice()) {
                    proof {
                        assert(found_at(cracker, space, k));
                    }
                    result = Some(cand);
                    finished = true;
                }
            },
        }
    }
    Ok(result)
}

} // verus!
