use vstd::prelude::*;

verus! {

/// Compares two byte strings, touching every byte pair whatever the first
/// difference is, so that the time taken does not reveal where they differ.
pub fn constant_time_compare(a: &[u8], b: &[u8]) -> (r: bool)
    ensures
        r == (a@ == b@),
{
    if a.len() != b.len() {
        return false;
    }
    let mut acc: u8 = 0;
    let mut i: usize = 0;
    while i < a.len()
        invariant
            a@.len() == b@.len(),
            i <= a@.len(),
            (acc == 0) == (forall|j: int| 0 <= j < i ==> a@[j] == b@[j]),
        decreases a@.len() - i,
    {
        let x = a[i];
        let y = b[i];
        let next: u8 = acc | (x ^ y);
        assert((next == 0) == (acc == 0 && x == y)) by (bit_vector)
            requires
                next == acc | (x ^ y),
        ;
        acc = next;
        i = i + 1;
        assert((acc == 0) == (forall|j: int| 0 <= j < i ==> a@[j] == b@[j])) by {
            if acc == 0 {
                assert forall|j: int| 0 <= j < i implies a@[j] == b@[j] by {
                    if j < i - 1 {
                    } else {
                        assert(j == i - 1);
                    }
                }
            } else {
                if x != y {
                    assert(!(a@[i - 1] == b@[i - 1]));
                }
            }
        };
    }
    if acc == 0 {
        assert(a@ =~= b@);
        true
    } else {
        false
    }
}

} // verus!
