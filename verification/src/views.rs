use vstd::prelude::*;

verus! {

/// What an optional vector holds.
pub open spec fn opt_view<T>(o: Option<Vec<T>>) -> Option<Seq<T>> {
    match o {
        Some(v) => Some(v@),
        None => None,
    }
}

/// A copy of an optional string.
pub fn clone_opt_string(o: &Option<String>) -> (r: Option<String>)
    ensures
        r == *o,
{
    match o {
        Some(s) => Some(s.clone()),
        None => None,
    }
}

/// A copy of an optional list of bytes.
pub fn clone_opt_bytes(o: &Option<Vec<u8>>) -> (r: Option<Vec<u8>>)
    ensures
        opt_view(r) == opt_view(*o),
{
    match o {
        Some(v) => {
            let mut out: Vec<u8> = Vec::new();
            let mut i: usize = 0;
            while i < v.len()
                invariant
                    i <= v.len(),
                    out@ == v@.take(i as int),
                decreases v.len() - i,
            {
                out.push(v[i]);
                i = i + 1;
                assert(out@ =~= v@.take(i as int));
            }
            assert(v@.take(v.len() as int) =~= v@);
            Some(out)
        },
        None => None,
    }
}

/// A copy of an optional list of strings.
pub fn clone_opt_strings(o: &Option<Vec<String>>) -> (r: Option<Vec<String>>)
    ensures
        opt_view(r) == opt_view(*o),
{
    match o {
        Some(v) => {
            let mut out: Vec<String> = Vec::new();
            let mut i: usize = 0;
            while i < v.len()
                invariant
                    i <= v.len(),
                    out@ == v@.take(i as int),
                decreases v.len() - i,
            {
                out.push(v[i].clone());
                i = i + 1;
                assert(out@ =~= v@.take(i as int));
            }
            assert(v@.take(v.len() as int) =~= v@);
            Some(out)
        },
        None => None,
    }
}

/// `a + b`, held at the largest `u64` where the sum would pass it.
pub open spec fn sat_add(a: u64, b: u64) -> u64 {
    if a + b > u64::MAX {
        u64::MAX
    } else {
        (a + b) as u64
    }
}

/// `amount * bps / 10000`, rounded down: the part of `amount` that `bps`
/// basis points stand for.
pub open spec fn bps_of(amount: u64, bps: u64) -> int {
    (amount * bps) / 10000
}

/// `a + b`, held at the largest `u64`.
pub fn add_saturating(a: u64, b: u64) -> (r: u64)
    ensures
        r == sat_add(a, b),
{
    if a > u64::MAX - b {
        u64::MAX
    } else {
        a + b
    }
}

/// The part of `amount` that `bps` basis points stand for; no more than
/// `amount` where `bps` is within 10000.
pub fn basis_points(amount: u64, bps: u64) -> (r: u128)
    ensures
        r == bps_of(amount, bps),
        bps <= 10000 ==> r <= amount,
{
    assert(0 <= amount * bps <= u64::MAX * u64::MAX) by (nonlinear_arith)
        requires
            0 <= bps <= u64::MAX,
            0 <= amount <= u64::MAX,
    ;
    assert(bps <= 10000 ==> amount * bps <= amount * 10000) by (nonlinear_arith)
        requires
            0 <= bps,
            0 <= amount,
    ;
    (amount as u128) * (bps as u128) / 10000
}

/// `a * b`, held at the largest `u64` where the product would pass it.
pub open spec fn sat_mul(a: u64, b: u64) -> u64 {
    if a * b > u64::MAX {
        u64::MAX
    } else {
        (a * b) as u64
    }
}

/// `a * b`, held at the largest `u64`.
pub fn mul_saturating(a: u64, b: u64) -> (r: u64)
    ensures
        r == sat_mul(a, b),
{
    match a.checked_mul(b) {
        Some(p) => p,
        None => u64::MAX,
    }
}

} // verus!
