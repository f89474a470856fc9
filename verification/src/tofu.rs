//! Trust on first use: the viewer pins the first certificate the agent
//! presents and afterwards accepts only that certificate.

use vstd::prelude::*;

verus! {

/// What to do with a presented server certificate.
#[derive(Clone, Copy, PartialEq, Eq, Structural, Debug)]
pub enum PinDecision {
    /// It is the pinned certificate.
    Accept,
    /// A certificate is pinned and this is another one.
    Reject,
    /// Nothing is pinned yet: pin this certificate and accept it.
    Pin,
}

/// The decision for certificate `presented`, given the pinned certificate
/// (`None`: nothing pinned yet).
pub open spec fn pin_decision_of(presented: Seq<u8>, pinned: Option<Seq<u8>>) -> PinDecision {
    match pinned {
        None => PinDecision::Pin,
        Some(p) => if presented == p {
            PinDecision::Accept
        } else {
            PinDecision::Reject
        },
    }
}

/// Whether two byte strings are equal.
fn bytes_equal(a: &[u8], b: &[u8]) -> (r: bool)
    ensures
        r == (a@ == b@),
{
    if a.len() != b.len() {
        return false;
    }
    let n = a.len();
    let mut i: usize = 0;
    while i < n
        invariant
            n == a@.len(),
            n == b@.len(),
            i <= n,
            forall|j: int| 0 <= j < i ==> a@[j] == b@[j],
        decreases n - i,
    {
        if a[i] != b[i] {
            return false;
        }
        i = i + 1;
    }
    assert(a@ =~= b@);
    true
}

/// Decides on a presented certificate: pin it when nothing is pinned,
/// accept it when it equals the pinned one, reject it otherwise.
pub fn tofu_decision(presented: &[u8], pinned: Option<&[u8]>) -> (d: PinDecision)
    ensures
        d == pin_decision_of(
            presented@,
            match pinned {
                None => None,
                Some(p) => Some(p@),
            },
        ),
{
    match pinned {
        None => PinDecision::Pin,
        Some(p) => if bytes_equal(presented, p) {
            PinDecision::Accept
        } else {
            PinDecision::Reject
        },
    }
}

/// Trust on first use: the first certificate is pinned; afterwards a
/// certificate is accepted exactly when it is the pinned one.
pub proof fn law_trust_on_first_use(first: Seq<u8>, later: Seq<u8>)
    ensures
        pin_decision_of(first, None) == PinDecision::Pin,
        pin_decision_of(later, Some(first)) == PinDecision::Accept <==> later == first,
        pin_decision_of(later, Some(first)) != PinDecision::Pin,
{
}

} // verus!
