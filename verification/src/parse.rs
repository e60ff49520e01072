//! The geometry-file reader: plain text, line-oriented.
//!
//! A line starting with `v` defines a vertex from three decimal
//! coordinates (homogeneous w is 1); a line starting with `f` defines a
//! face from 1-based vertex references (an optional `/`-delimited suffix on
//! a reference is ignored), fan-triangulated from the first reference; any
//! other line is ignored. Tokens are separated by single spaces, as the
//! format conventionally writes them. Any malformed field or out-of-range reference is
//! an error naming the offending line. Coordinates are plain decimals
//! (optional sign, optional fraction); fraction digits beyond the sixth
//! cannot move a 16-bit fixed-point value and are validated but ignored,
//! with the fraction rounded half up.

use vstd::prelude::*;
use crate::fixed::ONE;
use crate::geom::{Tri, Vec4};

verus! {

/// The largest whole part a coordinate may have: the fixed-point scale
/// leaves 47 bits above the binary point, and one more unit is held back
/// so that a fraction rounding up to a whole unit cannot overflow.
pub const MAX_WHOLE: u64 = 140737488355326;

/// Whether a byte is a decimal digit.
pub open spec fn is_digit(b: u8) -> bool {
    48 <= b <= 57
}

/// Every byte of the sequence is a decimal digit.
pub open spec fn all_digits(s: Seq<u8>) -> bool {
    forall|i: int| 0 <= i < s.len() ==> is_digit(#[trigger] s[i])
}

/// The decimal value of a digit sequence (most significant first).
pub open spec fn digits_val(s: Seq<u8>) -> int
    decreases s.len(),
{
    if s.len() == 0 {
        0
    } else {
        digits_val(s.drop_last()) * 10 + (s.last() - 48)
    }
}

/// Ten to the n-th.
pub open spec fn pow10(n: nat) -> int
    decreases n,
{
    if n == 0 {
        1
    } else {
        10 * pow10((n - 1) as nat)
    }
}

/// The index of the first occurrence of a byte at or after position i, or
/// -1 when there is none.
pub open spec fn find_byte(s: Seq<u8>, b: u8, i: int) -> int
    decreases s.len() - i,
{
    if i < 0 || i >= s.len() {
        -1
    } else if s[i] == b {
        i
    } else {
        find_byte(s, b, i + 1)
    }
}

/// A scan that saw no occurrence up to j continues the search from j.
pub proof fn lemma_find_byte_from(s: Seq<u8>, b: u8, i: int, j: int)
    requires
        0 <= i <= j <= s.len(),
        forall|m: int| i <= m < j ==> s[m] != b,
    ensures
        find_byte(s, b, i) == find_byte(s, b, j),
    decreases j - i,
{
    if i < j {
        lemma_find_byte_from(s, b, i + 1, j);
    }
}

/// Where the byte is found, the scan returns that position.
pub proof fn lemma_find_byte_at(s: Seq<u8>, b: u8, i: int, j: int)
    requires
        0 <= i <= j < s.len(),
        forall|m: int| i <= m < j ==> s[m] != b,
        s[j] == b,
    ensures
        find_byte(s, b, i) == j,
{
    lemma_find_byte_from(s, b, i, j);
}

/// A digit sequence has a nonnegative value.
pub proof fn lemma_digits_val_nonneg(s: Seq<u8>)
    requires
        all_digits(s),
    ensures
        digits_val(s) >= 0,
    decreases s.len(),
{
    if s.len() > 0 {
        assert(all_digits(s.drop_last())) by {
            assert(forall|i: int|
                0 <= i < s.len() - 1 ==> is_digit(#[trigger] s.drop_last()[i]) == is_digit(
                    s[i],
                ));
        }
        lemma_digits_val_nonneg(s.drop_last());
    }
}

/// Extending a digit sequence never shrinks its value.
pub proof fn lemma_digits_val_prefix(s: Seq<u8>, i: int)
    requires
        all_digits(s),
        0 <= i <= s.len(),
    ensures
        digits_val(s.subrange(0, i)) <= digits_val(s),
    decreases s.len(),
{
    if i == s.len() {
        assert(s.subrange(0, i) =~= s);
    } else {
        assert(all_digits(s.drop_last())) by {
            assert(forall|m: int|
                0 <= m < s.len() - 1 ==> is_digit(#[trigger] s.drop_last()[m]) == is_digit(
                    s[m],
                ));
        }
        assert(s.subrange(0, i) =~= s.drop_last().subrange(0, i));
        lemma_digits_val_prefix(s.drop_last(), i);
        lemma_digits_val_nonneg(s.drop_last());
    }
}

/// Parse a run of decimal digits: the value, or `None` when a byte is not
/// a digit or the value exceeds the largest whole part.
pub fn parse_digits(tok: &Vec<u8>, from: usize, to: usize) -> (r: Option<u64>)
    requires
        from <= to <= tok@.len(),
    ensures
        r == if all_digits(tok@.subrange(from as int, to as int)) && digits_val(
            tok@.subrange(from as int, to as int),
        ) <= MAX_WHOLE {
            Some(digits_val(tok@.subrange(from as int, to as int)) as u64)
        } else {
            None::<u64>
        },
{
    let ghost s = tok@.subrange(from as int, to as int);
    let mut acc: u64 = 0;
    let mut j = from;
    while j < to
        invariant
            from <= j <= to <= tok@.len(),
            s == tok@.subrange(from as int, to as int),
            acc == digits_val(s.subrange(0, j - from)),
            acc <= MAX_WHOLE,
            all_digits(s.subrange(0, j - from)),
        decreases to - j,
    {
        let b = tok[j];
        proof {
            assert(s[j - from] == b);
        }
        if !(48 <= b && b <= 57) {
            proof {
                assert(!is_digit(s[j as int - from as int]));
            }
            return None;
        }
        let d = (b - 48) as u64;
        let next: u64 = acc * 10 + d;
        proof {
            assert(s.subrange(0, j - from + 1).drop_last() =~= s.subrange(0, j - from));
            assert(s.subrange(0, j - from + 1).last() == s[j - from]);
        }
        if next > MAX_WHOLE {
            proof {
                if all_digits(s) {
                    lemma_digits_val_prefix(s, j - from + 1);
                }
            }
            return None;
        }
        acc = next;
        j = j + 1;
    }
    proof {
        assert(s.subrange(0, to - from) =~= s);
    }
    Some(acc)
}

/// The fixed-point value of a fraction-digit sequence scaled to six
/// places: later digits are below the fixed-point resolution.
pub open spec fn frac6_val(s: Seq<u8>) -> int {
    if s.len() >= 6 {
        digits_val(s.subrange(0, 6))
    } else {
        digits_val(s) * pow10((6 - s.len()) as nat)
    }
}

/// Parse a fraction-digit run to its six-place value; `None` when any byte
/// (also past the sixth) is not a digit.
pub fn parse_frac(tok: &Vec<u8>, from: usize, to: usize) -> (r: Option<u64>)
    requires
        from <= to <= tok@.len(),
    ensures
        r == if all_digits(tok@.subrange(from as int, to as int)) {
            Some(frac6_val(tok@.subrange(from as int, to as int)) as u64)
        } else {
            None::<u64>
        },
        r is Some ==> r.unwrap() <= 999999,
{
    let ghost s = tok@.subrange(from as int, to as int);
    let mut acc: u64 = 0;
    let mut taken: usize = 0;
    let mut j = from;
    while j < to
        invariant
            from <= j <= to <= tok@.len(),
            s == tok@.subrange(from as int, to as int),
            taken == if j - from <= 6 { j - from } else { 6int },
            acc == digits_val(s.subrange(0, taken as int)),
            acc <= 999999,
            all_digits(s.subrange(0, j - from)),
        decreases to - j,
    {
        let b = tok[j];
        proof {
            assert(s[j - from] == b);
        }
        if !(48 <= b && b <= 57) {
            proof {
                assert(!is_digit(s[j as int - from as int]));
            }
            return None;
        }
        proof {
            assert(s.subrange(0, j - from + 1).drop_last() =~= s.subrange(0, j - from));
            assert(s.subrange(0, j - from + 1).last() == s[j - from]);
        }
        if taken < 6 {
            proof {
                assert(s.subrange(0, taken as int + 1).drop_last() =~= s.subrange(
                    0,
                    taken as int,
                ));
                assert(s.subrange(0, taken as int + 1).last() == s[taken as int]);
                assert(all_digits(s.subrange(0, taken as int))) by {
                    assert(forall|m: int|
                        0 <= m < taken ==> is_digit(#[trigger] s.subrange(0, taken as int)[m])
                            == is_digit(s[m]));
                }
                lemma_digits_small_n(s.subrange(0, taken as int));
                lemma_pow10_mono(taken as nat, 5nat);
                lemma_pow10_vals();
            }
            acc = acc * 10 + ((b - 48) as u64);
            taken = taken + 1;
        }
        j = j + 1;
    }
    proof {
        assert(s.subrange(0, to - from) =~= s);
        if s.len() >= 6 {
            assert(taken == 6);
        } else {
            assert(taken == s.len());
        }
    }
    let mut pad = taken;
    while pad < 6
        invariant
            taken <= pad <= 6,
            taken <= 6,
            taken as int == if s.len() <= 6 { s.len() as int } else { 6int },
            acc == digits_val(s.subrange(0, taken as int)) * pow10((pad - taken) as nat),
            acc <= 999999,
            all_digits(s),
            s.len() >= 6 ==> pad == 6,
        decreases 6 - pad,
    {
        proof {
            let v = digits_val(s.subrange(0, taken as int));
            assert(all_digits(s.subrange(0, taken as int))) by {
                assert(forall|m: int|
                    0 <= m < taken ==> is_digit(#[trigger] s.subrange(0, taken as int)[m])
                        == is_digit(s[m]));
            }
            lemma_digits_small_n(s.subrange(0, taken as int));
            lemma_pow10_pos((pad - taken) as nat);
            lemma_pow10_add(taken as nat, (pad - taken) as nat);
            assert(v * pow10((pad - taken) as nat) < pow10(taken as nat) * pow10(
                (pad - taken) as nat,
            )) by (nonlinear_arith)
                requires
                    v < pow10(taken as nat),
                    v >= 0,
                    pow10((pad - taken) as nat) > 0,
            ;
            lemma_pow10_mono(pad as nat, 5nat);
            lemma_pow10_vals();
            assert(acc < 100000);
            assert(pow10((pad + 1 - taken) as nat) == 10 * pow10((pad - taken) as nat));
            assert(v * (10 * pow10((pad - taken) as nat)) == (v * pow10(
                (pad - taken) as nat,
            )) * 10) by (nonlinear_arith);
        }
        acc = acc * 10;
        pad = pad + 1;
    }
    proof {
        if s.len() >= 6 {
            assert(s.subrange(0, taken as int) =~= s.subrange(0, 6));
            assert(pow10(0nat) == 1);
        } else {
            assert(s.subrange(0, taken as int) =~= s);
        }
    }
    Some(acc)
}

/// A digit run of length n is below ten to the n-th.
proof fn lemma_digits_small_n(s: Seq<u8>)
    requires
        all_digits(s),
    ensures
        digits_val(s) < pow10(s.len()),
        digits_val(s) >= 0,
    decreases s.len(),
{
    if s.len() == 0 {
    } else {
        assert(all_digits(s.drop_last())) by {
            assert(forall|m: int|
                0 <= m < s.len() - 1 ==> is_digit(#[trigger] s.drop_last()[m]) == is_digit(
                    s[m],
                ));
        }
        lemma_digits_small_n(s.drop_last());
        let v = digits_val(s.drop_last());
        let p = pow10((s.len() - 1) as nat);
        assert(v * 10 + (s.last() - 48) < p * 10) by (nonlinear_arith)
            requires
                v < p,
                v >= 0,
                0 <= s.last() - 48 <= 9,
        ;
        assert(pow10(s.len()) == 10 * p);
    }
}

/// A fraction run scales to a six-place value below one million.
proof fn lemma_frac6_bounds(s: Seq<u8>)
    requires
        all_digits(s),
    ensures
        0 <= frac6_val(s) < 1000000,
{
    lemma_pow10_vals();
    if s.len() >= 6 {
        assert(all_digits(s.subrange(0, 6))) by {
            assert(forall|m: int|
                0 <= m < 6 ==> is_digit(#[trigger] s.subrange(0, 6)[m]) == is_digit(s[m]));
        }
        lemma_digits_small_n(s.subrange(0, 6));
        lemma_pow10_mono(s.subrange(0, 6).len(), 6nat);
    } else {
        lemma_digits_small_n(s);
        let v = digits_val(s);
        let p = pow10((6 - s.len()) as nat);
        lemma_pow10_pos((6 - s.len()) as nat);
        lemma_pow10_add(s.len(), (6 - s.len()) as nat);
        assert(v * p < pow10(s.len()) * p) by (nonlinear_arith)
            requires
                v < pow10(s.len()),
                p > 0,
        ;
        assert(v * p >= 0) by (nonlinear_arith)
            requires
                v >= 0,
                p > 0,
        ;
    }
}

/// The small powers of ten, written out.
proof fn lemma_pow10_vals()
    ensures
        pow10(0nat) == 1,
        pow10(1nat) == 10,
        pow10(2nat) == 100,
        pow10(3nat) == 1000,
        pow10(4nat) == 10000,
        pow10(5nat) == 100000,
        pow10(6nat) == 1000000,
{
    assert(pow10(0nat) == 1);
    assert(pow10(1nat) == 10 * pow10(0nat));
    assert(pow10(2nat) == 10 * pow10(1nat));
    assert(pow10(3nat) == 10 * pow10(2nat));
    assert(pow10(4nat) == 10 * pow10(3nat));
    assert(pow10(5nat) == 10 * pow10(4nat));
    assert(pow10(6nat) == 10 * pow10(5nat));
}

/// Ten to any power is positive.
proof fn lemma_pow10_pos(n: nat)
    ensures
        pow10(n) > 0,
    decreases n,
{
    if n > 0 {
        lemma_pow10_pos((n - 1) as nat);
    }
}

/// Powers of ten are monotone in the exponent.
proof fn lemma_pow10_mono(a: nat, b: nat)
    requires
        a <= b,
    ensures
        pow10(a) <= pow10(b),
    decreases b,
{
    if a < b {
        lemma_pow10_mono(a, (b - 1) as nat);
        lemma_pow10_pos((b - 1) as nat);
    }
}

/// Powers of ten multiply by adding exponents.
proof fn lemma_pow10_add(a: nat, b: nat)
    ensures
        pow10(a + b) == pow10(a) * pow10(b),
    decreases a,
{
    if a == 0 {
    } else {
        lemma_pow10_add((a - 1) as nat, b);
        assert(pow10(a + b) == 10 * pow10((a - 1) as nat + b));
        assert(10 * (pow10((a - 1) as nat) * pow10(b)) == (10 * pow10((a - 1) as nat)) * pow10(
            b,
        )) by (nonlinear_arith);
    }
}


/// Find the first occurrence of a byte at or after `from`, as an index;
/// the length when there is none.
pub fn find_in(v: &Vec<u8>, b: u8, from: usize) -> (r: usize)
    requires
        from <= v@.len(),
    ensures
        from <= r <= v@.len(),
        r as int == if find_byte(v@, b, from as int) == -1 {
            v@.len() as int
        } else {
            find_byte(v@, b, from as int)
        },
        r < v@.len() ==> v@[r as int] == b,
        forall|m: int| from <= m < r ==> v@[m] != b,
        (r == v@.len()) <==> (find_byte(v@, b, from as int) == -1),
{
    let mut j = from;
    while j < v.len()
        invariant
            from <= j <= v@.len(),
            forall|m: int| from <= m < j ==> v@[m] != b,
        decreases v@.len() - j,
    {
        if v[j] == b {
            proof {
                lemma_find_byte_at(v@, b, from as int, j as int);
            }
            return j;
        }
        j = j + 1;
    }
    proof {
        lemma_find_byte_from(v@, b, from as int, v@.len() as int);
    }
    v.len()
}

/// Copy a byte range out of a buffer.
pub fn copy_range(v: &Vec<u8>, from: usize, to: usize) -> (r: Vec<u8>)
    requires
        from <= to <= v@.len(),
    ensures
        r@ == v@.subrange(from as int, to as int),
{
    let mut r: Vec<u8> = Vec::new();
    let mut j = from;
    while j < to
        invariant
            from <= j <= to <= v@.len(),
            r@ =~= v@.subrange(from as int, j as int),
        decreases to - j,
    {
        r.push(v[j]);
        proof {
            assert(v@.subrange(from as int, j + 1).drop_last() =~= v@.subrange(
                from as int,
                j as int,
            ));
            assert(r@ =~= v@.subrange(from as int, j + 1));
        }
        j = j + 1;
    }
    proof {
        assert(r@ =~= v@.subrange(from as int, to as int));
    }
    r
}

/// Whether a byte marks an exponent, in either case.
pub open spec fn is_exp_mark(b: u8) -> bool {
    b == 101 || b == 69
}

/// The index of the first exponent mark at or after position i, or -1 when
/// there is none.
pub open spec fn find_exp(s: Seq<u8>, i: int) -> int
    decreases s.len() - i,
{
    if i < 0 || i >= s.len() {
        -1
    } else if is_exp_mark(s[i]) {
        i
    } else {
        find_exp(s, i + 1)
    }
}

/// A scan that saw no exponent mark up to j continues the search from j.
pub proof fn lemma_find_exp_from(s: Seq<u8>, i: int, j: int)
    requires
        0 <= i <= j <= s.len(),
        forall|m: int| i <= m < j ==> !is_exp_mark(#[trigger] s[m]),
    ensures
        find_exp(s, i) == find_exp(s, j),
    decreases j - i,
{
    if i < j {
        lemma_find_exp_from(s, i + 1, j);
    }
}

/// Find the first exponent mark at or after `from`, as an index; the
/// length when there is none.
pub fn find_exp_in(v: &Vec<u8>, from: usize) -> (r: usize)
    requires
        from <= v@.len(),
    ensures
        from <= r <= v@.len(),
        r as int == if find_exp(v@, from as int) == -1 {
            v@.len() as int
        } else {
            find_exp(v@, from as int)
        },
        (r == v@.len()) <==> (find_exp(v@, from as int) == -1),
{
    let mut j = from;
    while j < v.len()
        invariant
            from <= j <= v@.len(),
            forall|m: int| from <= m < j ==> !is_exp_mark(#[trigger] v@[m]),
        decreases v@.len() - j,
    {
        let b = v[j];
        if b == 101 || b == 69 {
            proof {
                lemma_find_exp_from(v@, from as int, j as int);
            }
            return j;
        }
        j = j + 1;
    }
    proof {
        lemma_find_exp_from(v@, from as int, v@.len() as int);
    }
    v.len()
}

/// Whether every byte of a range is a decimal digit.
pub fn check_digits(tok: &Vec<u8>, from: usize, to: usize) -> (r: bool)
    requires
        from <= to <= tok@.len(),
    ensures
        r == all_digits(tok@.subrange(from as int, to as int)),
{
    let ghost s = tok@.subrange(from as int, to as int);
    let mut j = from;
    while j < to
        invariant
            from <= j <= to <= tok@.len(),
            s == tok@.subrange(from as int, to as int),
            all_digits(s.subrange(0, j - from)),
        decreases to - j,
    {
        let b = tok[j];
        proof {
            assert(s[j - from] == b);
        }
        if !(48 <= b && b <= 57) {
            proof {
                assert(!is_digit(s[j as int - from as int]));
            }
            return false;
        }
        j = j + 1;
    }
    proof {
        assert(s.subrange(0, to - from) =~= s);
    }
    true
}

/// A run of zero digits.
pub open spec fn zero_digits(n: nat) -> Seq<u8> {
    Seq::new(n, |i: int| 48u8)
}

/// The digits left of a decimal point placed p places into a digit run
/// (zero-padded on the right when the point lies past the run).
pub open spec fn shifted_whole(digits: Seq<u8>, p: int) -> Seq<u8> {
    if p <= 0 {
        Seq::empty()
    } else if p >= digits.len() {
        digits + zero_digits((p - digits.len()) as nat)
    } else {
        digits.subrange(0, p)
    }
}

/// The digits right of a decimal point placed p places into a digit run
/// (zero-padded on the left when the point lies before the run).
pub open spec fn shifted_frac(digits: Seq<u8>, p: int) -> Seq<u8> {
    if p <= 0 {
        zero_digits((-p) as nat) + digits
    } else if p >= digits.len() {
        Seq::empty()
    } else {
        digits.subrange(p, digits.len() as int)
    }
}

/// Split a digit run at a point moved `eval` places right of `iplen`,
/// zero-padding whichever side the point leaves.
fn shift_digits(digits: Vec<u8>, iplen: usize, eval: i64) -> (r: (Vec<u8>, Vec<u8>))
    requires
        -99 <= eval <= 99,
        iplen <= digits@.len(),
    ensures
        r.0@ == shifted_whole(digits@, iplen + eval),
        r.1@ == shifted_frac(digits@, iplen + eval),
{
    let dlen = digits.len();
    let p: i128 = (iplen as i128) + (eval as i128);
    if p <= 0 {
        let nz = (-p) as usize;
        let mut f: Vec<u8> = Vec::new();
        let mut z: usize = 0;
        while z < nz
            invariant
                z <= nz,
                f@ =~= zero_digits(z as nat),
            decreases nz - z,
        {
            f.push(48u8);
            proof {
                assert(f@ =~= zero_digits(z as nat + 1));
            }
            z = z + 1;
        }
        let mut t: usize = 0;
        while t < dlen
            invariant
                t <= dlen,
                dlen == digits@.len(),
                f@ =~= zero_digits(nz as nat) + digits@.subrange(0, t as int),
            decreases dlen - t,
        {
            f.push(digits[t]);
            proof {
                assert(digits@.subrange(0, t + 1).drop_last() =~= digits@.subrange(
                    0,
                    t as int,
                ));
                assert(f@ =~= zero_digits(nz as nat) + digits@.subrange(0, t + 1));
            }
            t = t + 1;
        }
        proof {
            assert(digits@.subrange(0, dlen as int) =~= digits@);
            assert(f@ =~= shifted_frac(digits@, iplen + eval));
        }
        (Vec::new(), f)
    } else if p >= dlen as i128 {
        let nz = (p - dlen as i128) as usize;
        let mut w = digits;
        let ghost base = w@;
        let mut z: usize = 0;
        while z < nz
            invariant
                z <= nz,
                w@ =~= base + zero_digits(z as nat),
            decreases nz - z,
        {
            w.push(48u8);
            proof {
                assert(w@ =~= base + zero_digits(z as nat + 1));
            }
            z = z + 1;
        }
        proof {
            assert(w@ =~= shifted_whole(base, iplen + eval));
        }
        (w, Vec::new())
    } else {
        let pu = p as usize;
        let w = copy_range(&digits, 0, pu);
        let f = copy_range(&digits, pu, dlen);
        (w, f)
    }
}

/// Parse the exponent part of a token, the mark standing at `epos`.
fn parse_exponent(tok: &Vec<u8>, epos: usize) -> (r: Option<i64>)
    requires
        epos <= tok@.len(),
    ensures
        (r is Some) <==> (exp_value_spec(tok@, epos as int) is Some),
        r matches Some(v) ==> -99 <= v <= 99 && exp_value_spec(tok@, epos as int) == Some(
            v as int,
        ),
{
    if epos == tok.len() {
        return Some(0);
    }
    let es = epos + 1;
    let eneg = es < tok.len() && tok[es] == 45;
    let es2: usize = if es < tok.len() && (tok[es] == 45 || tok[es] == 43) {
        es + 1
    } else {
        es
    };
    if es2 == tok.len() {
        return None;
    }
    match parse_digits(tok, es2, tok.len()) {
        Some(v) => {
            proof {
                if all_digits(tok@.subrange(es2 as int, tok@.len() as int)) {
                    lemma_digits_val_nonneg(tok@.subrange(es2 as int, tok@.len() as int));
                }
            }
            if v > 99 {
                return None;
            }
            if eneg {
                Some(-(v as i64))
            } else {
                Some(v as i64)
            }
        },
        None => None,
    }
}

/// The exponent a token names after position epos: zero when there is no
/// exponent part, and its signed digit value otherwise; `None` when the
/// part is empty, not all digits, or larger than two digits can write.
pub open spec fn exp_value_spec(s: Seq<u8>, epos: int) -> Option<int> {
    if epos >= s.len() {
        Some(0)
    } else {
        let es = epos + 1;
        let eneg = es < s.len() && s[es] == 45;
        let es2 = if es < s.len() && (s[es] == 45 || s[es] == 43) {
            es + 1
        } else {
            es
        };
        let ed = s.subrange(es2, s.len() as int);
        if ed.len() == 0 || !all_digits(ed) || digits_val(ed) > 99 {
            None
        } else {
            Some(
                if eneg {
                    -digits_val(ed)
                } else {
                    digits_val(ed)
                },
            )
        }
    }
}

/// The fixed-point value of separated whole and fraction digit runs with
/// a sign: the whole part scaled, the fraction rounded half up at six
/// places; `None` when either run is not all digits or the whole part
/// exceeds the largest representable.
pub open spec fn fixed_of_spec(w: Seq<u8>, f: Seq<u8>, neg: bool) -> Option<i64> {
    if !all_digits(w) || !all_digits(f) || digits_val(w) > MAX_WHOLE {
        None
    } else {
        let mag = digits_val(w) * (ONE as int) + (frac6_val(f) * (ONE as int) + 500000)
            / 1000000;
        Some((if neg {
            -mag
        } else {
            mag
        }) as i64)
    }
}

/// The fixed-point value of separated whole and fraction digit runs.
fn fixed_of_parts(whole: &Vec<u8>, frac: &Vec<u8>, neg: bool) -> (r: Option<i64>)
    ensures
        r == fixed_of_spec(whole@, frac@, neg),
{
    let ipo = parse_digits(whole, 0, whole.len());
    let fpo = parse_frac(frac, 0, frac.len());
    proof {
        assert(whole@.subrange(0, whole@.len() as int) =~= whole@);
        assert(frac@.subrange(0, frac@.len() as int) =~= frac@);
    }
    match (ipo, fpo) {
        (Some(ipv), Some(fpv)) => {
            let fr: u64 = (fpv * 65536 + 500000) / 1000000;
            proof {
                vstd::arithmetic::div_mod::lemma_div_is_ordered(
                    (fpv as int) * 65536 + 500000,
                    65536434464int,
                    1000000int,
                );
                if all_digits(whole@) {
                    lemma_digits_val_nonneg(whole@);
                }
                if all_digits(frac@) {
                    lemma_frac6_bounds(frac@);
                }
                assert(ipv <= MAX_WHOLE);
                assert(fr <= 65536);
            }
            let mag: u64 = ipv * 65536 + fr;
            if neg {
                Some(-(mag as i64))
            } else {
                Some(mag as i64)
            }
        },
        _ => None,
    }
}

/// Parse a decimal coordinate token into fixed-point: an optional sign, a
/// digit run, an optional point and fraction run, an optional exponent
/// (`e` or `E`, optional sign, at most two digits); at least one mantissa
/// digit. After the exponent shifts the point, the whole part must be at
/// most the largest representable and the fraction is rounded half up at
/// six places.
#[verifier::opaque]
pub open spec fn parse_fixed_spec(s: Seq<u8>) -> Option<i64> {
    if s.len() == 0 {
        None
    } else {
        let neg = s[0] == 45;
        let start: int = if s[0] == 45 || s[0] == 43 {
            1
        } else {
            0
        };
        let eraw = find_exp(s, start);
        let epos = if eraw < 0 {
            s.len() as int
        } else {
            eraw
        };
        let dp = find_byte(s, 46, start);
        let ip = if dp < 0 || dp >= epos {
            s.subrange(start, epos)
        } else {
            s.subrange(start, dp)
        };
        let fp = if dp < 0 || dp >= epos {
            Seq::<u8>::empty()
        } else {
            s.subrange(dp + 1, epos)
        };
        match exp_value_spec(s, epos) {
            Option::None => None,
            Option::Some(e) => {
                if ip.len() + fp.len() == 0 {
                    None
                } else if !all_digits(ip) || !all_digits(fp) {
                    None
                } else {
                    fixed_of_spec(
                        shifted_whole(ip + fp, ip.len() + e),
                        shifted_frac(ip + fp, ip.len() + e),
                        neg,
                    )
                }
            },
        }
    }
}

/// Join two byte ranges of a buffer into one run.
fn join_ranges(tok: &Vec<u8>, ipa: usize, ipb: usize, fpa: usize, fpb: usize) -> (r: Vec<u8>)
    requires
        ipa <= ipb <= fpa <= fpb <= tok@.len(),
    ensures
        r@ == tok@.subrange(ipa as int, ipb as int) + tok@.subrange(fpa as int, fpb as int),
{
    let ghost ip = tok@.subrange(ipa as int, ipb as int);
    let mut digits = copy_range(tok, ipa, ipb);
    let mut t = fpa;
    while t < fpb
        invariant
            fpa <= t <= fpb <= tok@.len(),
            ip == tok@.subrange(ipa as int, ipb as int),
            digits@ =~= ip + tok@.subrange(fpa as int, t as int),
        decreases fpb - t,
    {
        digits.push(tok[t]);
        proof {
            assert(tok@.subrange(fpa as int, t + 1).drop_last() =~= tok@.subrange(
                fpa as int,
                t as int,
            ));
            assert(digits@ =~= ip + tok@.subrange(fpa as int, t + 1));
        }
        t = t + 1;
    }
    proof {
        assert(digits@ =~= ip + tok@.subrange(fpa as int, fpb as int));
    }
    digits
}

/// Parse a decimal coordinate token into fixed-point.
#[verifier::rlimit(100)]
pub fn parse_fixed(tok: &Vec<u8>) -> (r: Option<i64>)
    ensures
        r == parse_fixed_spec(tok@),
{
    proof {
        reveal(parse_fixed_spec);
    }
    if tok.len() == 0 {
        return None;
    }
    let first = tok[0];
    let neg = first == 45;
    let start: usize = if first == 45 || first == 43 {
        1
    } else {
        0
    };
    let epos = find_exp_in(tok, start);
    let d = find_in(tok, 46, start);
    let has_dot = d < epos;
    let ipa = start;
    let ipb = if has_dot {
        d
    } else {
        epos
    };
    let fpa = if has_dot {
        d + 1
    } else {
        epos
    };
    let fpb = epos;
    let ghost ip = tok@.subrange(ipa as int, ipb as int);
    let ghost fp = tok@.subrange(fpa as int, fpb as int);
    proof {
        if !has_dot {
            assert(fp =~= Seq::<u8>::empty());
        }
    }

    let eval: i64;
    match parse_exponent(tok, epos) {
        Some(v) => {
            eval = v;
        },
        None => {
            return None;
        },
    }

    if ipb == ipa && fpb == fpa {
        return None;
    }
    if !check_digits(tok, ipa, ipb) {
        return None;
    }
    if !check_digits(tok, fpa, fpb) {
        return None;
    }

    let digits = join_ranges(tok, ipa, ipb, fpa, fpb);
    let iplen = ipb - ipa;
    let (whole, frac) = shift_digits(digits, iplen, eval);
    proof {
        assert(whole@ == shifted_whole(ip + fp, ip.len() + eval as int));
        assert(frac@ == shifted_frac(ip + fp, ip.len() + eval as int));
    }
    fixed_of_parts(&whole, &frac, neg)
}

/// Parse a face vertex reference: the decimal run before an optional `/`;
/// sub-indices after the slash are ignored.
pub open spec fn parse_index_spec(s: Seq<u8>) -> Option<u64> {
    let e = find_byte(s, 47, 0);
    let d = if e < 0 {
        s
    } else {
        s.subrange(0, e)
    };
    if d.len() == 0 || !all_digits(d) || digits_val(d) > MAX_WHOLE {
        None
    } else {
        Some(digits_val(d) as u64)
    }
}

/// Parse a face vertex reference.
pub fn parse_index(tok: &Vec<u8>) -> (r: Option<u64>)
    ensures
        r == parse_index_spec(tok@),
{
    let e = find_in(tok, 47, 0);
    proof {
        if find_byte(tok@, 47, 0) == -1 {
            assert(tok@.subrange(0, e as int) =~= tok@);
        }
    }
    if e == 0 {
        return None;
    }
    parse_digits(tok, 0, e)
}

/// The line split at single spaces; a run of spaces yields empty tokens,
/// which then fail to parse.
pub open spec fn split_sp(s: Seq<u8>, i: int) -> Seq<Seq<u8>>
    decreases s.len() - i,
{
    let e = find_byte(s, 32, i);
    if e < 0 {
        seq![s.subrange(i, s.len() as int)]
    } else {
        // A found position always lies in [i, len); the bound on the
        // recursion argument is what lets the measure decrease.
        seq![s.subrange(i, e)] + split_sp(
            s,
            if i < e + 1 && e < s.len() {
                e + 1
            } else {
                i + 1
            },
        )
    }
}

/// The views of a token list.
pub open spec fn toks_views(ts: Seq<Vec<u8>>) -> Seq<Seq<u8>> {
    ts.map_values(|t: Vec<u8>| t@)
}

/// Split a line into its space-separated tokens.
pub fn split_tokens(line: &Vec<u8>) -> (toks: Vec<Vec<u8>>)
    ensures
        toks_views(toks@) == split_sp(line@, 0),
        toks@.len() >= 1,
{
    let mut toks: Vec<Vec<u8>> = Vec::new();
    let mut pos: usize = 0;
    let mut done = false;
    while !done
        invariant
            pos <= line@.len(),
            split_sp(line@, 0) == toks_views(toks@) + (if done {
                Seq::<Seq<u8>>::empty()
            } else {
                split_sp(line@, pos as int)
            }),
            done ==> toks@.len() >= 1,
        decreases line@.len() - pos + (if done { 0int } else { 1int }),
    {
        let e = find_in(line, 32, pos);
        let tokv = copy_range(line, pos, e);
        let ghost oldtoks = toks@;
        toks.push(tokv);
        proof {
            assert(toks_views(toks@) =~= toks_views(oldtoks).push(tokv@));
        }
        if e == line.len() {
            proof {
                assert(find_byte(line@, 32, pos as int) == -1);
                assert(split_sp(line@, pos as int) =~~= seq![tokv@]);
                assert(toks_views(oldtoks) + split_sp(line@, pos as int) =~~= toks_views(
                    toks@,
                ) + Seq::<Seq<u8>>::empty());
            }
            done = true;
        } else {
            proof {
                assert(find_byte(line@, 32, pos as int) == e as int);
                assert(split_sp(line@, pos as int) =~~= seq![tokv@] + split_sp(
                    line@,
                    e + 1,
                ));
                assert(toks_views(oldtoks) + split_sp(line@, pos as int) =~~= toks_views(
                    toks@,
                ) + split_sp(line@, e + 1));
            }
            pos = e + 1;
        }
    }
    toks
}


/// Why a geometry file was rejected.
#[derive(Clone, Copy, PartialEq, Eq, Structural, Debug)]
pub enum ParseErrorKind {
    /// A vertex or face line has too few fields.
    MissingField,
    /// A coordinate is not a plain decimal number in range.
    BadNumber,
    /// A vertex reference is not a plain number or is out of range.
    BadIndex,
}

/// A fatal load failure, naming the offending line (1-based).
#[derive(Clone, Copy, PartialEq, Eq, Structural, Debug)]
pub struct ParseError {
    pub line: u64,
    pub kind: ParseErrorKind,
}

/// The vertex references of a face, parsed left to right; `None` at the
/// first malformed one.
pub open spec fn parse_refs(toks: Seq<Seq<u8>>, i: int) -> Option<Seq<u64>>
    decreases toks.len() - i,
{
    if i < 0 || i >= toks.len() {
        Some(Seq::empty())
    } else {
        match parse_index_spec(toks[i]) {
            Option::None => None,
            Option::Some(v) => match parse_refs(toks, i + 1) {
                Option::None => None,
                Option::Some(rest) => Some(seq![v] + rest),
            },
        }
    }
}

/// The fan triangulation of a face: references (r0, r1, ..., rn) yield the
/// triangles (r0, r1, r2), (r0, r2, r3), ... in that order, one fewer than
/// two per reference, each vertex looked up 1-based.
pub open spec fn face_tris(verts: Seq<Vec4>, refs: Seq<u64>) -> Seq<Tri> {
    Seq::new(
        (refs.len() - 2) as nat,
        |k: int| Tri {
            v0: verts[refs[0] - 1],
            v1: verts[refs[k + 1] - 1],
            v2: verts[refs[k + 2] - 1],
        },
    )
}

/// What one line contributes: a `v` line appends a vertex from three
/// coordinates with w = 1; an `f` line appends the fan triangulation of its
/// references, every one of which must parse and lie in range; a face of
/// two references then yields nothing; every other line is ignored.
pub open spec fn line_step(line: Seq<u8>, verts: Seq<Vec4>, tris: Seq<Tri>) -> Result<
    (Seq<Vec4>, Seq<Tri>),
    ParseErrorKind,
> {
    let toks = split_sp(line, 0);
    if toks[0] == seq![118u8] {
        if toks.len() < 4 {
            Err(ParseErrorKind::MissingField)
        } else {
            match (parse_fixed_spec(toks[1]), parse_fixed_spec(toks[2]), parse_fixed_spec(
                toks[3],
            )) {
                (Option::Some(x), Option::Some(y), Option::Some(z)) => Ok(
                    (verts.push(Vec4 { x, y, z, w: ONE }), tris),
                ),
                _ => Err(ParseErrorKind::BadNumber),
            }
        }
    } else if toks[0] == seq![102u8] {
        match parse_refs(toks, 1) {
            Option::None => Err(ParseErrorKind::BadIndex),
            Option::Some(rs) => if rs.len() < 2 {
                Err(ParseErrorKind::MissingField)
            } else if exists|i: int| 0 <= i < rs.len() && !(1 <= #[trigger] rs[i] <= verts.len()) {
                Err(ParseErrorKind::BadIndex)
            } else if rs.len() == 2 {
                Ok((verts, tris))
            } else {
                Ok((verts, tris + face_tris(verts, rs)))
            },
        }
    } else {
        Ok((verts, tris))
    }
}

/// Apply one line to the model being built.
pub fn handle_line(line: &Vec<u8>, verts: &mut Vec<Vec4>, tris: &mut Vec<Tri>) -> (r: Option<
    ParseErrorKind,
>)
    ensures
        match line_step(line@, old(verts)@, old(tris)@) {
            Ok(p) => r is None && final(verts)@ == p.0 && final(tris)@ == p.1,
            Err(k) => r == Some(k) && final(verts)@ == old(verts)@ && final(tris)@ == old(
                tris,
            )@,
        },
{
    let toks = split_tokens(line);
    let ghost tv = toks_views(toks@);
    let t0 = &toks[0];
    proof {
        assert(t0@ == tv[0]);
    }
    if t0.len() == 1 && t0[0] == 118 {
        proof {
            assert(t0@ =~= seq![118u8]);
            assert(tv.len() == toks@.len());
        }
        if toks.len() < 4 {
            return Some(ParseErrorKind::MissingField);
        }
        proof {
            assert(toks@[1]@ == tv[1]);
            assert(toks@[2]@ == tv[2]);
            assert(toks@[3]@ == tv[3]);
        }
        let xo = parse_fixed(&toks[1]);
        let yo = parse_fixed(&toks[2]);
        let zo = parse_fixed(&toks[3]);
        match (xo, yo, zo) {
            (Some(x), Some(y), Some(z)) => {
                verts.push(Vec4 { x, y, z, w: ONE });
                None
            },
            _ => Some(ParseErrorKind::BadNumber),
        }
    } else if t0.len() == 1 && t0[0] == 102 {
        proof {
            assert(t0@ =~= seq![102u8]);
            assert(tv[0] != seq![118u8]);
            assert(tv.len() == toks@.len());
        }
        let mut rs: Vec<u64> = Vec::new();
        proof {
            if parse_refs(tv, 1) is Some {
                assert(Seq::<u64>::empty() + parse_refs(tv, 1).unwrap() =~= parse_refs(
                    tv,
                    1,
                ).unwrap());
            }
        }
        let mut i: usize = 1;
        while i < toks.len()
            invariant
                1 <= i <= toks@.len(),
                tv == toks_views(toks@),
                tv.len() == toks@.len(),
                tv == split_sp(line@, 0),
                tv[0] == seq![102u8],
                tv[0] != seq![118u8],
                verts@ == old(verts)@,
                tris@ == old(tris)@,
                parse_refs(tv, 1) == match parse_refs(tv, i as int) {
                    Option::None => None::<Seq<u64>>,
                    Option::Some(rest) => Some(rs@ + rest),
                },
            decreases toks@.len() - i,
        {
            let ro = parse_index(&toks[i]);
            proof {
                assert(toks@[i as int]@ == tv[i as int]);
            }
            match ro {
                None => {
                    return Some(ParseErrorKind::BadIndex);
                },
                Some(v) => {
                    let ghost oldrs = rs@;
                    rs.push(v);
                    proof {
                        if parse_refs(tv, i as int + 1) is Some {
                            let rest = parse_refs(tv, i as int + 1).unwrap();
                            assert(oldrs + (seq![v] + rest) =~= rs@ + rest);
                        }
                    }
                },
            }
            i = i + 1;
        }
        proof {
            assert(parse_refs(tv, toks@.len() as int) == Some(Seq::<u64>::empty()));
            assert(rs@ + Seq::<u64>::empty() =~= rs@);
        }
        if rs.len() < 2 {
            return Some(ParseErrorKind::MissingField);
        }
        let mut j: usize = 0;
        while j < rs.len()
            invariant
                j <= rs@.len(),
                rs@.len() >= 2,
                tv == split_sp(line@, 0),
                tv[0] == seq![102u8],
                tv[0] != seq![118u8],
                verts@ == old(verts)@,
                tris@ == old(tris)@,
                parse_refs(tv, 1) == Some(rs@),
                forall|m: int| 0 <= m < j ==> 1 <= #[trigger] rs@[m] <= verts@.len(),
            decreases rs@.len() - j,
        {
            let v = rs[j];
            if v == 0 || v > verts.len() as u64 {
                proof {
                    assert(!(1 <= rs@[j as int] <= verts@.len()));
                }
                return Some(ParseErrorKind::BadIndex);
            }
            j = j + 1;
        }
        proof {
            assert(forall|m: int| 0 <= m < rs@.len() ==> 1 <= #[trigger] rs@[m]
                <= verts@.len());
            assert(1 <= rs@[0] <= verts@.len());
        }
        if rs.len() == 2 {
            return None;
        }
        let vl = verts.len();
        proof {
            assert(verts@.len() == vl);
        }
        let ghost verts0 = verts@;
        let ghost tris0 = tris@;
        let r0 = rs[0] as usize;
        let mut k: usize = 0;
        while k < rs.len() - 2
            invariant
                rs@.len() >= 3,
                k <= rs@.len() - 2,
                r0 == rs@[0],
                vl == verts@.len(),
                tv == split_sp(line@, 0),
                tv[0] == seq![102u8],
                tv[0] != seq![118u8],
                verts0 == old(verts)@,
                tris0 == old(tris)@,
                parse_refs(tv, 1) == Some(rs@),
                forall|m: int| 0 <= m < rs@.len() ==> 1 <= #[trigger] rs@[m] <= old(verts)@.len(),
                forall|m: int| 0 <= m < rs@.len() ==> 1 <= #[trigger] rs@[m] <= verts@.len(),
                verts@ == verts0,
                tris@.len() == tris0.len() + k,
                forall|m: int| 0 <= m < tris0.len() ==> tris@[m] == tris0[m],
                forall|m: int|
                    0 <= m < k ==> tris@[tris0.len() + m] == face_tris(verts0, rs@)[m],
            decreases rs@.len() - k,
        {
            proof {
                assert(1 <= rs@[k + 1] <= verts@.len());
                assert(1 <= rs@[k + 2] <= verts@.len());
            }
            let a = rs[k + 1] as usize;
            let b = rs[k + 2] as usize;
            tris.push(Tri { v0: verts[r0 - 1], v1: verts[a - 1], v2: verts[b - 1] });
            k = k + 1;
        }
        proof {
            assert(tris@ =~= tris0 + face_tris(verts0, rs@));
        }
        None
    } else {
        proof {
            assert(tv[0] != seq![118u8] && tv[0] != seq![102u8]) by {
                if tv[0] == seq![118u8] {
                    assert(t0@.len() == 1 && t0@[0] == 118);
                }
                if tv[0] == seq![102u8] {
                    assert(t0@.len() == 1 && t0@[0] == 102);
                }
            }
        }
        None
    }
}

/// The lines of a byte text, split at line feeds, with no empty trailing
/// line after a final line feed.
pub open spec fn lines_of(s: Seq<u8>, i: int) -> Seq<Seq<u8>>
    decreases s.len() - i,
{
    if i < 0 || i >= s.len() {
        Seq::empty()
    } else {
        let e = find_byte(s, 10, i);
        if e < 0 {
            seq![s.subrange(i, s.len() as int)]
        } else {
            // A found position always lies in [i, len); the bound on the
            // recursion argument is what lets the measure decrease.
            seq![s.subrange(i, e)] + lines_of(
                s,
                if i < e + 1 && e < s.len() {
                    e + 1
                } else {
                    i + 1
                },
            )
        }
    }
}

/// A line counter that cannot wrap.
pub open spec fn next_line_no(ln: u64) -> u64 {
    if ln == u64::MAX {
        ln
    } else {
        (ln + 1) as u64
    }
}

/// The model a sequence of lines builds, line by line from the given
/// state, or the first error with its line number.
pub open spec fn model_spec(
    lines: Seq<Seq<u8>>,
    ln: u64,
    verts: Seq<Vec4>,
    tris: Seq<Tri>,
) -> Result<Seq<Tri>, ParseError>
    decreases lines.len(),
{
    if lines.len() == 0 {
        Ok(tris)
    } else {
        match line_step(lines[0], verts, tris) {
            Err(k) => Err(ParseError { line: ln, kind: k }),
            Ok(p) => model_spec(lines.skip(1), next_line_no(ln), p.0, p.1),
        }
    }
}

/// The triangles of a geometry text, or the first error.
pub open spec fn load_model_spec(s: Seq<u8>) -> Result<Seq<Tri>, ParseError> {
    model_spec(lines_of(s, 0), 1, Seq::empty(), Seq::empty())
}

/// Load a triangle mesh from the bytes of a geometry file. Every vertex and
/// face line contributes in order; any malformed field or out-of-range
/// reference is an error naming its line.
pub fn load_model(bytes: &Vec<u8>) -> (r: Result<Vec<Tri>, ParseError>)
    ensures
        r is Ok <==> load_model_spec(bytes@) is Ok,
        r matches Ok(v) ==> load_model_spec(bytes@) == Ok::<Seq<Tri>, ParseError>(v@),
        r matches Err(e) ==> load_model_spec(bytes@) == Err::<Seq<Tri>, ParseError>(e),
{
    let mut verts: Vec<Vec4> = Vec::new();
    let mut tris: Vec<Tri> = Vec::new();
    let mut pos: usize = 0;
    let mut ln: u64 = 1;
    while pos < bytes.len()
        invariant
            pos <= bytes@.len(),
            load_model_spec(bytes@) == model_spec(
                lines_of(bytes@, pos as int),
                ln,
                verts@,
                tris@,
            ),
        decreases bytes@.len() - pos,
    {
        let e = find_in(bytes, 10, pos);
        let line = copy_range(bytes, pos, e);
        let ghost rest = lines_of(bytes@, pos as int);
        proof {
            if e == bytes@.len() {
                assert(rest =~~= seq![line@]);
                assert(rest.skip(1) =~~= Seq::<Seq<u8>>::empty());
            } else {
                assert(rest =~~= seq![line@] + lines_of(bytes@, e + 1));
                assert(rest.skip(1) =~~= lines_of(bytes@, e + 1));
            }
            assert(rest[0] == line@);
        }
        match handle_line(&line, &mut verts, &mut tris) {
            Some(k) => {
                return Err(ParseError { line: ln, kind: k });
            },
            None => {},
        }
        if e == bytes.len() {
            pos = bytes.len();
        } else {
            pos = e + 1;
        }
        if ln < u64::MAX {
            ln = ln + 1;
        }
    }
    proof {
        assert(lines_of(bytes@, pos as int) =~~= Seq::<Seq<u8>>::empty());
    }
    Ok(tris)
}

} // verus!
