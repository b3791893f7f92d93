//! Character-level building blocks of the claims wire format: canonical
//! decimal rendering of integers and the two-character escape used inside
//! quoted JSON strings, each with an executable form proved against its
//! specification.

use vstd::prelude::*;

verus! {

// ---------------------------------------------------------------------------
// Decimal digits
// ---------------------------------------------------------------------------

pub open spec fn digit_char(d: int) -> char {
    if d == 0 {
        '0'
    } else if d == 1 {
        '1'
    } else if d == 2 {
        '2'
    } else if d == 3 {
        '3'
    } else if d == 4 {
        '4'
    } else if d == 5 {
        '5'
    } else if d == 6 {
        '6'
    } else if d == 7 {
        '7'
    } else if d == 8 {
        '8'
    } else {
        '9'
    }
}

pub open spec fn is_digit_char(c: char) -> bool {
    c == '0' || c == '1' || c == '2' || c == '3' || c == '4' || c == '5' || c == '6' || c == '7'
        || c == '8' || c == '9'
}

pub open spec fn digit_val(c: char) -> int {
    if c == '0' {
        0
    } else if c == '1' {
        1
    } else if c == '2' {
        2
    } else if c == '3' {
        3
    } else if c == '4' {
        4
    } else if c == '5' {
        5
    } else if c == '6' {
        6
    } else if c == '7' {
        7
    } else if c == '8' {
        8
    } else {
        9
    }
}

/// Canonical decimal rendering of a non-negative integer: no sign, no
/// leading zeroes (`0` itself is the single digit `0`).
pub open spec fn dec_u(n: int) -> Seq<char>
    recommends
        n >= 0,
    decreases n,
{
    if n < 10 {
        seq![digit_char(n)]
    } else {
        dec_u(n / 10).push(digit_char(n % 10))
    }
}

/// Canonical decimal rendering of an integer: a leading `-` for negative
/// values, then the digits of the magnitude.
pub open spec fn dec_i(n: int) -> Seq<char> {
    if n < 0 {
        seq!['-'] + dec_u(-n)
    } else {
        dec_u(n)
    }
}

/// Value of a digit sequence read as a decimal numeral.
pub open spec fn val_of(ds: Seq<char>) -> int
    decreases ds.len(),
{
    if ds.len() == 0 {
        0
    } else {
        val_of(ds.drop_last()) * 10 + digit_val(ds.last())
    }
}

pub open spec fn all_digits(ds: Seq<char>) -> bool {
    forall|k: int| 0 <= k < ds.len() ==> is_digit_char(ds[k])
}

pub open spec fn pow10(k: int) -> int
    recommends
        k >= 0,
    decreases k,
{
    if k <= 0 {
        1
    } else {
        10 * pow10(k - 1)
    }
}

pub proof fn lemma_dec_u_digits(n: int)
    requires
        n >= 0,
    ensures
        dec_u(n).len() >= 1,
        all_digits(dec_u(n)),
        dec_u(n)[0] != '0' || n < 10,
    decreases n,
{
    if n >= 10 {
        lemma_dec_u_digits(n / 10);
        assert(dec_u(n) == dec_u(n / 10).push(digit_char(n % 10)));
        assert(dec_u(n)[0] == dec_u(n / 10)[0]);
        if n / 10 < 10 {
            assert(dec_u(n / 10) == seq![digit_char(n / 10)]);
            assert(n / 10 >= 1);
            assert(digit_char(n / 10) != '0');
        }
    }
}

pub proof fn lemma_val_dec_u(n: int)
    requires
        n >= 0,
    ensures
        val_of(dec_u(n)) == n,
    decreases n,
{
    if n < 10 {
        let d = dec_u(n);
        assert(d == seq![digit_char(n)]);
        assert(d.drop_last() =~= Seq::<char>::empty());
        assert(val_of(Seq::<char>::empty()) == 0);
        assert(d.last() == digit_char(n));
        assert(val_of(d) == val_of(d.drop_last()) * 10 + digit_val(d.last()));
        assert(digit_val(digit_char(n)) == n);
    } else {
        lemma_val_dec_u(n / 10);
        let d = dec_u(n / 10).push(digit_char(n % 10));
        assert(d.drop_last() =~= dec_u(n / 10));
        assert(d.last() == digit_char(n % 10));
        assert(digit_val(digit_char(n % 10)) == n % 10);
        assert(val_of(d) == (n / 10) * 10 + n % 10);
    }
}

pub proof fn lemma_val_bounds(ds: Seq<char>)
    requires
        all_digits(ds),
    ensures
        0 <= val_of(ds) < pow10(ds.len() as int),
        ds.len() >= 1 && ds[0] != '0' ==> val_of(ds) >= pow10(ds.len() - 1),
    decreases ds.len(),
{
    if ds.len() > 0 {
        let front = ds.drop_last();
        assert(all_digits(front));
        lemma_val_bounds(front);
        assert(0 <= digit_val(ds.last()) < 10);
        assert(val_of(front) * 10 + 10 <= pow10(front.len() as int) * 10) by (nonlinear_arith)
            requires
                val_of(front) < pow10(front.len() as int),
        ;
        assert(pow10(ds.len() as int) == 10 * pow10(front.len() as int));
        if ds.len() >= 1 && ds[0] != '0' {
            if ds.len() == 1 {
                assert(val_of(ds) == digit_val(ds[0]));
                assert(ds[0] != '0' && is_digit_char(ds[0]));
                assert(digit_val(ds[0]) >= 1);
            } else {
                assert(front[0] == ds[0]);
                assert(val_of(front) >= pow10(front.len() - 1));
                assert(val_of(front) * 10 >= pow10(front.len() - 1) * 10) by (nonlinear_arith)
                    requires
                        val_of(front) >= pow10(front.len() - 1),
                        pow10(front.len() - 1) >= 0,
                ;
            }
        }
    }
}

/// A digit string with no superfluous leading zero is exactly the canonical
/// rendering of its value.
pub proof fn lemma_canonical_digits(ds: Seq<char>)
    requires
        all_digits(ds),
        ds.len() >= 1,
        ds.len() == 1 || ds[0] != '0',
    ensures
        dec_u(val_of(ds)) == ds,
    decreases ds.len(),
{
    let front = ds.drop_last();
    let dl = digit_val(ds.last());
    if ds.len() == 1 {
        assert(front =~= Seq::<char>::empty());
        assert(val_of(Seq::<char>::empty()) == 0);
        assert(val_of(ds) == val_of(front) * 10 + dl);
        assert(val_of(ds) == dl);
        assert(dec_u(dl) == seq![digit_char(dl)]);
        assert(digit_char(digit_val(ds[0])) == ds[0]);
        assert(dec_u(val_of(ds)) =~= ds);
    } else {
        assert(all_digits(front));
        assert(front[0] == ds[0]);
        lemma_canonical_digits(front);
        lemma_val_bounds(front);
        assert(val_of(front) >= pow10(front.len() - 1));
        assert(pow10(front.len() - 1) >= pow10(0)) by {
            lemma_pow10_mono(0, front.len() - 1);
        }
        let v = val_of(ds);
        assert(v == val_of(front) * 10 + dl);
        assert(v >= 10) by (nonlinear_arith)
            requires
                v == val_of(front) * 10 + dl,
                val_of(front) >= 1,
                dl >= 0,
        ;
        assert(v / 10 == val_of(front) && v % 10 == dl) by (nonlinear_arith)
            requires
                v == val_of(front) * 10 + dl,
                0 <= dl < 10,
        ;
        assert(dec_u(v) == dec_u(val_of(front)).push(digit_char(dl)));
        assert(digit_char(digit_val(ds.last())) == ds.last());
        assert(dec_u(v) =~= ds);
    }
}

pub proof fn lemma_pow10_mono(a: int, b: int)
    requires
        0 <= a <= b,
    ensures
        pow10(a) <= pow10(b),
        pow10(a) >= 1,
    decreases b,
{
    if a < b {
        lemma_pow10_mono(a, b - 1);
        assert(pow10(b) == 10 * pow10(b - 1));
    } else {
        if a > 0 {
            lemma_pow10_mono(a - 1, a - 1);
        }
    }
}

// ---------------------------------------------------------------------------
// Executable decimal rendering
// ---------------------------------------------------------------------------

/// One-character string for a decimal digit.
pub fn digit_str(d: u64) -> (r: &'static str)
    requires
        d < 10,
    ensures
        r@ =~= seq![digit_char(d as int)],
{
    proof {
        reveal_strlit("0");
        reveal_strlit("1");
        reveal_strlit("2");
        reveal_strlit("3");
        reveal_strlit("4");
        reveal_strlit("5");
        reveal_strlit("6");
        reveal_strlit("7");
        reveal_strlit("8");
        reveal_strlit("9");
    }
    match d {
        0 => "0",
        1 => "1",
        2 => "2",
        3 => "3",
        4 => "4",
        5 => "5",
        6 => "6",
        7 => "7",
        8 => "8",
        _ => "9",
    }
}

pub fn u64_to_string(m: u64) -> (r: String)
    ensures
        r@ == dec_u(m as int),
    decreases m,
{
    if m < 10 {
        let s = digit_str(m);
        let r = s.to_owned();
        assert(r@ =~= dec_u(m as int));
        r
    } else {
        let mut r = u64_to_string(m / 10);
        r.append(digit_str(m % 10));
        assert(r@ =~= dec_u((m / 10) as int).push(digit_char((m % 10) as int)));
        r
    }
}

/// Renders an integer in its canonical decimal form.
pub fn int_to_string(n: i64) -> (r: String)
    ensures
        r@ == dec_i(n as int),
{
    if n >= 0 {
        u64_to_string(n as u64)
    } else {
        let mag: u64 = ((-(n + 1)) as u64) + 1;
        assert(mag as int == -(n as int));
        let mut r = String::new();
        r.append("-");
        let digits = u64_to_string(mag);
        r.append(digits.as_str());
        proof {
            reveal_strlit("-");
            assert("-"@ =~= seq!['-']);
            assert(r@ =~= seq!['-'] + dec_u(-(n as int)));
        }
        r
    }
}

// ---------------------------------------------------------------------------
// Escaping
// ---------------------------------------------------------------------------

/// Escape of a single character inside a quoted string: `"` and `\` get a
/// backslash prefix, every other character stands for itself.
pub open spec fn esc_char(c: char) -> Seq<char> {
    if c == '"' || c == '\\' {
        seq!['\\', c]
    } else {
        seq![c]
    }
}

/// Escape of a whole string.
pub open spec fn esc(s: Seq<char>) -> Seq<char>
    decreases s.len(),
{
    if s.len() == 0 {
        Seq::empty()
    } else {
        esc_char(s[0]) + esc(s.skip(1))
    }
}

pub proof fn lemma_esc_snoc(s: Seq<char>, c: char)
    ensures
        esc(s.push(c)) == esc(s) + esc_char(c),
    decreases s.len(),
{
    if s.len() == 0 {
        assert(s.push(c)[0] == c);
        assert(s.push(c).skip(1) =~= Seq::<char>::empty());
        assert(esc(Seq::<char>::empty()) =~= Seq::<char>::empty());
        assert(esc(s.push(c)) == esc_char(c) + esc(s.push(c).skip(1)));
        assert(esc(s.push(c)) =~= esc_char(c));
        assert(esc(s) + esc_char(c) =~= esc_char(c));
    } else {
        assert(s.push(c).skip(1) =~= s.skip(1).push(c));
        lemma_esc_snoc(s.skip(1), c);
        assert(esc(s.push(c)) == esc_char(s[0]) + (esc(s.skip(1)) + esc_char(c)));
        assert(esc_char(s[0]) + (esc(s.skip(1)) + esc_char(c)) =~= (esc_char(s[0]) + esc(s.skip(1)))
            + esc_char(c));
    }
}

/// Appends the escaped form of `s` to `out`.
pub fn append_escaped(out: &mut String, s: &str)
    ensures
        final(out)@ == old(out)@ + esc(s@),
{
    let n = s.unicode_len();
    let mut i: usize = 0;
    while i < n
        invariant
            0 <= i <= n,
            n == s@.len(),
            out@ == old(out)@ + esc(s@.subrange(0, i as int)),
        decreases n - i,
    {
        let c = s.get_char(i);
        if c == '"' {
            out.append("\\\"");
            proof {
                reveal_strlit("\\\"");
                assert("\\\""@ =~= esc_char('"'));
            }
        } else if c == '\\' {
            out.append("\\\\");
            proof {
                reveal_strlit("\\\\");
                assert("\\\\"@ =~= esc_char('\\'));
            }
        } else {
            let piece = s.substring_char(i, i + 1);
            out.append(piece);
            proof {
                assert(piece@ =~= esc_char(c));
            }
        }
        proof {
            lemma_esc_snoc(s@.subrange(0, i as int), c);
            assert(s@.subrange(0, i + 1 as int) =~= s@.subrange(0, i as int).push(c));
            assert(out@ =~= old(out)@ + esc(s@.subrange(0, i + 1 as int)));
        }
        i += 1;
    }
    proof {
        assert(s@.subrange(0, n as int) =~= s@);
    }
}

} // verus!
