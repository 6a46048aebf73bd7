//! Text helpers: fixed-width upper-case hexadecimal and decimal renderings
//! of integers, used for identifiers and human-readable labels.
use vstd::prelude::*;

verus! {

/// The upper-case hexadecimal digit for `d` (`d < 16`).
pub open spec fn hex_char(d: nat) -> char {
    if d == 0 { '0' } else if d == 1 { '1' } else if d == 2 { '2' } else if d == 3 { '3' }
    else if d == 4 { '4' } else if d == 5 { '5' } else if d == 6 { '6' } else if d == 7 { '7' }
    else if d == 8 { '8' } else if d == 9 { '9' } else if d == 10 { 'A' } else if d == 11 { 'B' }
    else if d == 12 { 'C' } else if d == 13 { 'D' } else if d == 14 { 'E' } else { 'F' }
}

/// The decimal digit for `d` (`d < 10`).
pub open spec fn dec_char(d: nat) -> char {
    hex_char(d)
}

/// `v` rendered with exactly `width` upper-case hexadecimal digits
/// (the lowest `width` digits of `v`, zero-padded).
pub open spec fn hex_fixed(v: nat, width: nat) -> Seq<char>
    decreases width,
{
    if width == 0 {
        Seq::empty()
    } else {
        hex_fixed(v / 16, (width - 1) as nat).push(hex_char(v % 16))
    }
}

/// `v` rendered in decimal without leading zeros.
pub open spec fn decimal(v: nat) -> Seq<char>
    decreases v,
{
    if v < 10 {
        seq![dec_char(v)]
    } else {
        decimal(v / 10).push(dec_char(v % 10))
    }
}

fn digit_str(d: u64) -> (s: &'static str)
    requires
        d < 16,
    ensures
        s@ == seq![hex_char(d as nat)],
{
    if d == 0 { proof { reveal_strlit("0"); } "0" }
    else if d == 1 { proof { reveal_strlit("1"); } "1" }
    else if d == 2 { proof { reveal_strlit("2"); } "2" }
    else if d == 3 { proof { reveal_strlit("3"); } "3" }
    else if d == 4 { proof { reveal_strlit("4"); } "4" }
    else if d == 5 { proof { reveal_strlit("5"); } "5" }
    else if d == 6 { proof { reveal_strlit("6"); } "6" }
    else if d == 7 { proof { reveal_strlit("7"); } "7" }
    else if d == 8 { proof { reveal_strlit("8"); } "8" }
    else if d == 9 { proof { reveal_strlit("9"); } "9" }
    else if d == 10 { proof { reveal_strlit("A"); } "A" }
    else if d == 11 { proof { reveal_strlit("B"); } "B" }
    else if d == 12 { proof { reveal_strlit("C"); } "C" }
    else if d == 13 { proof { reveal_strlit("D"); } "D" }
    else if d == 14 { proof { reveal_strlit("E"); } "E" }
    else { proof { reveal_strlit("F"); } "F" }
}

/// A fixed-width rendering has exactly that many digits.
pub proof fn lemma_hex_fixed_len(v: nat, width: nat)
    ensures
        hex_fixed(v, width).len() == width,
    decreases width,
{
    if width > 0 {
        lemma_hex_fixed_len(v / 16, (width - 1) as nat);
    }
}

/// Values below `16^width` have distinct renderings in `width` digits.
pub proof fn lemma_hex_fixed_injective(a: nat, b: nat, width: nat)
    requires
        a < vstd::arithmetic::power::pow(16, width),
        b < vstd::arithmetic::power::pow(16, width),
        hex_fixed(a, width) == hex_fixed(b, width),
    ensures
        a == b,
    decreases width,
{
    if width == 0 {
        vstd::arithmetic::power::lemma_pow0(16);
    } else {
        let w = (width - 1) as nat;
        lemma_hex_fixed_len(a / 16, w);
        lemma_hex_fixed_len(b / 16, w);
        let ha = hex_fixed(a, width);
        let hb = hex_fixed(b, width);
        assert(ha.last() == hex_char(a % 16));
        assert(hb.last() == hex_char(b % 16));
        assert(ha.drop_last() =~= hex_fixed(a / 16, w));
        assert(hb.drop_last() =~= hex_fixed(b / 16, w));
        assert(a % 16 == b % 16);
        vstd::arithmetic::power::lemma_pow_positive(16, w);
        assert(vstd::arithmetic::power::pow(16, width) == 16 * vstd::arithmetic::power::pow(16, w)) by {
            vstd::arithmetic::power::lemma_pow_adds(16, 1, w);
            vstd::arithmetic::power::lemma_pow1(16);
        }
        let p = vstd::arithmetic::power::pow(16, w);
        assert(a / 16 < p && b / 16 < p) by (nonlinear_arith)
            requires
                a < 16 * p,
                b < 16 * p,
                p > 0,
        ;
        lemma_hex_fixed_injective(a / 16, b / 16, w);
        assert(a == 16 * (a / 16) + a % 16) by (nonlinear_arith);
        assert(b == 16 * (b / 16) + b % 16) by (nonlinear_arith);
    }
}

/// Renders `v` with exactly `width` upper-case hexadecimal digits, as the
/// format `{:0width$X}` does for a value that fits in `width` digits.
pub fn to_hex_fixed(v: u64, width: usize) -> (s: String)
    requires
        width <= 16,
    ensures
        s@ == hex_fixed(v as nat, width as nat),
{
    // Collect the digits from the least significant one.
    let mut digits: Vec<u64> = Vec::new();
    let mut rest: u64 = v;
    let mut i: usize = 0;
    while i < width
        invariant
            i <= width,
            digits.len() == i,
            hex_fixed(v as nat, width as nat) == hex_fixed(rest as nat, (width - i) as nat)
                + Seq::new(i as nat, |k: int| hex_char(digits@[i - 1 - k] as nat)),
            forall|k: int| 0 <= k < i ==> digits@[k] < 16,
        decreases width - i,
    {
        let ghost old_digits = digits@;
        let ghost old_rest = rest;
        let d = rest % 16;
        digits.push(d);
        rest = rest / 16;
        i = i + 1;
        proof {
            let w = (width - (i - 1)) as nat;
            assert(hex_fixed(old_rest as nat, w) == hex_fixed(rest as nat, (w - 1) as nat).push(
                hex_char(d as nat),
            ));
            assert(Seq::new(i as nat, |k: int| hex_char(digits@[i - 1 - k] as nat)) =~= seq![
                hex_char(d as nat),
            ] + Seq::new((i - 1) as nat, |k: int| hex_char(old_digits[i - 2 - k] as nat)));
            assert(hex_fixed(v as nat, width as nat) =~= hex_fixed(rest as nat, (width - i) as nat)
                + Seq::new(i as nat, |k: int| hex_char(digits@[i - 1 - k] as nat)));
        }
    }
    assert(hex_fixed(rest as nat, 0) =~= Seq::<char>::empty());
    let mut s = String::new();
    let mut j: usize = width;
    while j > 0
        invariant
            j <= width,
            digits.len() == width,
            forall|k: int| 0 <= k < width ==> digits@[k] < 16,
            hex_fixed(v as nat, width as nat) == Seq::new(width as nat, |k: int| hex_char(digits@[width - 1 - k] as nat)),
            s@ =~= Seq::new((width - j) as nat, |k: int| hex_char(digits@[width - 1 - k] as nat)),
        decreases j,
    {
        j = j - 1;
        let ds = digit_str(digits[j]);
        s.append(ds);
    }
    assert(s@ =~= hex_fixed(v as nat, width as nat));
    s
}

/// Renders `v` in decimal, as the format `{}` does.
pub fn to_decimal(v: u64) -> (s: String)
    ensures
        s@ == decimal(v as nat),
{
    let mut digits: Vec<u64> = Vec::new();
    let mut rest: u64 = v;
    let ghost mut acc: Seq<char> = Seq::empty();
    loop
        invariant
            forall|k: int| 0 <= k < digits.len() ==> digits@[k] < 10,
            decimal(v as nat) == decimal(rest as nat) + Seq::new(digits.len() as nat, |k: int| dec_char(digits@[digits.len() - 1 - k] as nat)),
        ensures
            rest < 10,
            forall|k: int| 0 <= k < digits.len() ==> digits@[k] < 10,
            decimal(v as nat) == decimal(rest as nat) + Seq::new(digits.len() as nat, |k: int| dec_char(digits@[digits.len() - 1 - k] as nat)),
        decreases rest,
    {
        if rest < 10 {
            break;
        }
        let ghost old_digits = digits@;
        let ghost old_rest = rest;
        let d = rest % 10;
        digits.push(d);
        rest = rest / 10;
        proof {
            let n = digits.len();
            assert(decimal(old_rest as nat) == decimal(rest as nat).push(dec_char(d as nat)));
            assert(Seq::new(n as nat, |k: int| dec_char(digits@[n - 1 - k] as nat)) =~= seq![
                dec_char(d as nat),
            ] + Seq::new((n - 1) as nat, |k: int| dec_char(old_digits[n - 2 - k] as nat)));
            assert(decimal(v as nat) =~= decimal(rest as nat) + Seq::new(n as nat, |k: int| dec_char(digits@[n - 1 - k] as nat)));
        }
    }
    let mut s = String::new();
    s.append(digit_str(rest));
    let n = digits.len();
    let mut j: usize = n;
    while j > 0
        invariant
            j <= n,
            digits.len() == n,
            forall|k: int| 0 <= k < n ==> digits@[k] < 10,
            s@ =~= decimal(rest as nat) + Seq::new((n - j) as nat, |k: int| dec_char(digits@[n - 1 - k] as nat)),
        decreases j,
    {
        j = j - 1;
        s.append(digit_str(digits[j]));
    }
    s
}

/// `v` rendered in decimal with a leading '-' when negative.
pub open spec fn signed_decimal(v: int) -> Seq<char> {
    if v < 0 {
        seq!['-'] + decimal((-v) as nat)
    } else {
        decimal(v as nat)
    }
}

/// Renders `v` in decimal, as the format `{}` does for a signed integer.
pub fn to_signed_decimal(v: i64) -> (s: String)
    ensures
        s@ == signed_decimal(v as int),
{
    if v < 0 {
        let magnitude: u64 = if v == i64::MIN {
            9_223_372_036_854_775_808u64
        } else {
            (-v) as u64
        };
        let digits = to_decimal(magnitude);
        proof { reveal_strlit("-"); }
        let mut s = String::from_str("-");
        s.append(digits.as_str());
        s
    } else {
        to_decimal(v as u64)
    }
}

} // verus!
