//! Finding a payment among transactions. The sums are floating-point
//! numbers, which stay outside the library; a transaction here is who paid
//! whom.
use vstd::prelude::*;

use crate::text::str_eq;

verus! {

/// Who paid whom in a transaction.
pub struct Transfer {
    pub from: String,
    pub to: String,
}

/// Where the first transfer to `name` stands, if there is one.
pub fn first_payment_to(transfers: &[Transfer], name: &str) -> (r: Option<usize>)
    ensures
        match r {
            Some(i) => {
                &&& i < transfers@.len()
                &&& transfers@[i as int].to@ == name@
                &&& forall|j: int| 0 <= j < i ==> (#[trigger] transfers@[j]).to@ != name@
            },
            None => forall|j: int| 0 <= j < transfers@.len() ==> (#[trigger] transfers@[j]).to@ != name@,
        },
{
    let mut i: usize = 0;
    while i < transfers.len()
        invariant
            i <= transfers@.len(),
            forall|j: int| 0 <= j < i ==> (#[trigger] transfers@[j]).to@ != name@,
        decreases transfers@.len() - i,
    {
        if str_eq(transfers[i].to.as_str(), name) {
            return Some(i);
        }
        i = i + 1;
    }
    None
}

} // verus!
