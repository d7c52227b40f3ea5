use vstd::prelude::*;

verus! {


/// Radix of one limb of a `BigNum` magnitude.
pub open spec fn limb_base() -> int {
    0x1_0000_0000_0000_0000
}

/// Value of a little-endian sequence of 64-bit limbs.
pub open spec fn limbs_value(s: Seq<u64>) -> int
    decreases s.len(),
{
    if s.len() == 0 {
        0
    } else {
        s[0] as int + limb_base() * limbs_value(s.drop_first())
    }
}

/// A limb sequence whose limbs are all zero has value zero.
pub proof fn lemma_zero_limbs(s: Seq<u64>)
    requires
        forall|i: int| 0 <= i < s.len() ==> s[i] == 0,
    ensures
        limbs_value(s) == 0,
    decreases s.len(),
{
    if s.len() > 0 {
        lemma_zero_limbs(s.drop_first());
    }
}

/// Limb values are never negative, and a nonzero limb makes the value positive.
pub proof fn lemma_limbs_value_bounds(s: Seq<u64>)
    ensures
        limbs_value(s) >= 0,
        (exists|i: int| 0 <= i < s.len() && s[i] != 0) ==> limbs_value(s) >= 1,
    decreases s.len(),
{
    if s.len() > 0 {
        let t = s.drop_first();
        lemma_limbs_value_bounds(t);
        if exists|i: int| 0 <= i < s.len() && s[i] != 0 {
            let i = choose|i: int| 0 <= i < s.len() && s[i] != 0;
            if i > 0 {
                assert(t[i - 1] != 0);
            }
        }
    }
}

/// An arbitrary-precision integer literal: a sign and a little-endian
/// sequence of 64-bit limbs.
#[derive(Clone, Debug)]
pub struct BigNum {
    pub negative: bool,
    pub limbs: Vec<u64>,
}

impl BigNum {
    /// Canonical form: no most-significant zero limb, and zero is never negative.
    pub open spec fn wf(&self) -> bool {
        &&& (self.limbs@.len() > 0 ==> self.limbs@.last() != 0)
        &&& (self.limbs@.len() == 0 ==> !self.negative)
    }

    pub open spec fn view(&self) -> int {
        if self.negative {
            -limbs_value(self.limbs@)
        } else {
            limbs_value(self.limbs@)
        }
    }

    pub fn zero() -> (r: BigNum)
        ensures
            r.wf(),
            r@ == 0,
    {
        BigNum { negative: false, limbs: Vec::new() }
    }

    pub fn from_usize(v: usize) -> (r: BigNum)
        ensures
            r.wf(),
            r@ == v as int,
    {
        if v == 0 {
            BigNum::zero()
        } else {
            let mut limbs: Vec<u64> = Vec::new();
            limbs.push(v as u64);
            proof {
                assert(limbs@.drop_first() =~= Seq::<u64>::empty());
                reveal_with_fuel(limbs_value, 2);
            }
            BigNum { negative: false, limbs }
        }
    }

    /// A copy with the same sign and limbs.
    pub fn duplicate(&self) -> (r: BigNum)
        ensures
            r.negative == self.negative,
            r.limbs@ == self.limbs@,
            r@ == self@,
    {
        let limbs = self.limbs.clone();
        assert(limbs@ =~= self.limbs@);
        BigNum { negative: self.negative, limbs }
    }

    /// The value as a `usize`, where it is one.
    pub fn to_usize(&self) -> (r: Option<usize>)
        ensures
            r == (if 0 <= self@ <= usize::MAX {
                Some(self@ as usize)
            } else {
                None
            }),
    {
        let n = self.limbs.len();
        let mut tail_zero = true;
        let mut i: usize = 1;
        while i < n
            invariant
                n == self.limbs@.len(),
                1 <= i,
                tail_zero == (forall|j: int| 1 <= j < i && j < n ==> self.limbs@[j] == 0),
            decreases n - i,
        {
            if self.limbs[i] != 0 {
                tail_zero = false;
            }
            i = i + 1;
        }
        let ghost s = self.limbs@;
        proof {
            if n > 0 {
                let t = s.drop_first();
                if tail_zero {
                    assert forall|j: int| 0 <= j < t.len() implies t[j] == 0 by {
                        assert(s[j + 1] == 0);
                    }
                    lemma_zero_limbs(t);
                } else {
                    let j = choose|j: int| 1 <= j < n && s[j] != 0;
                    assert(t[j - 1] != 0);
                    lemma_limbs_value_bounds(t);
                }
            }
        }
        if !tail_zero {
            None
        } else if n == 0 {
            Some(0)
        } else {
            let low = self.limbs[0];
            if low == 0 {
                Some(0)
            } else if self.negative {
                None
            } else if low > usize::MAX as u64 {
                None
            } else {
                Some(low as usize)
            }
        }
    }
}

} // verus!
