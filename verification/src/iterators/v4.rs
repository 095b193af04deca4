//! A countdown that yields its numbers one at a time.
use vstd::prelude::*;

verus! {

/// The numbers from a start down to one.
pub open spec fn countdown_from(start: nat) -> Seq<u32> {
    Seq::new(start, |i: int| (start - i) as u32)
}

/// Counts down from a start to one.
pub struct Countdown {
    current: u32,
}

impl Countdown {
    /// The numbers still to come, largest first.
    pub closed spec fn left(self) -> Seq<u32> {
        countdown_from(self.current as nat)
    }

    /// A countdown that starts at `start`.
    pub fn from(start: u32) -> (r: Countdown)
        ensures
            r.left() == countdown_from(start as nat),
    {
        Countdown { current: start }
    }

    /// The next number, or `None` once the countdown has reached one.
    pub fn next(&mut self) -> (r: Option<u32>)
        ensures
            old(self).left().len() == 0 ==> r is None && final(self).left() == old(self).left(),
            old(self).left().len() > 0 ==> r == Some(old(self).left()[0]) && final(self).left()
                == old(self).left().drop_first(),
    {
        if self.current == 0 {
            None
        } else {
            let value = self.current;
            self.current = self.current - 1;
            assert(countdown_from(self.current as nat) =~= countdown_from(value as nat).drop_first());
            Some(value)
        }
    }

    /// Every number still to come, largest first.
    pub fn into_vec(self) -> (r: Vec<u32>)
        ensures
            r@ == self.left(),
    {
        let mut rest = self;
        let mut out: Vec<u32> = Vec::new();
        loop
            invariant
                out@ + rest.left() == self.left(),
            decreases rest.left().len(),
        {
            match rest.next() {
                Some(n) => {
                    out.push(n);
                    assert(out@ + rest.left() =~= self.left());
                },
                None => {
                    assert(out@ =~= self.left());
                    return out;
                },
            }
        }
    }
}

} // verus!
