//! Strict readers for the claims wire format: a literal matcher, a quoted
//! string reader that inverts the escape of [`crate::text`], and a canonical
//! decimal reader. Each has a specification-level form, proofs that it is the
//! exact inverse of the corresponding writer, and an executable form proved
//! equal to the specification.

use vstd::prelude::*;

use crate::text::{
    all_digits, dec_i, dec_u, digit_val, esc, esc_char, is_digit_char, lemma_canonical_digits,
    lemma_dec_u_digits, lemma_pow10_mono, lemma_val_bounds, lemma_val_dec_u,
    pow10, val_of,
};

verus! {

pub const I64_MIN_INT: i64 = -9223372036854775808i64;

// ---------------------------------------------------------------------------
// Literal matcher
// ---------------------------------------------------------------------------

/// Consumes the exact literal `lit` from the front of `s`.
pub open spec fn eat(s: Seq<char>, lit: Seq<char>) -> Option<Seq<char>> {
    if lit.len() <= s.len() && s.subrange(0, lit.len() as int) == lit {
        Some(s.skip(lit.len() as int))
    } else {
        None
    }
}

pub proof fn lemma_eat_complete(lit: Seq<char>, rest: Seq<char>)
    ensures
        eat(lit + rest, lit) == Some(rest),
{
    let s = lit + rest;
    assert(s.subrange(0, lit.len() as int) =~= lit);
    assert(s.skip(lit.len() as int) =~= rest);
}

pub proof fn lemma_eat_sound(s: Seq<char>, lit: Seq<char>)
    requires
        eat(s, lit) is Some,
    ensures
        s == lit + eat(s, lit)->0,
{
    assert(s =~= lit + s.skip(lit.len() as int));
}

// ---------------------------------------------------------------------------
// Quoted-string reader
// ---------------------------------------------------------------------------

/// Reads the body of a quoted string up to and including its closing quote,
/// undoing the escape; returns the string and what follows the quote. Only
/// `\"` and `\\` are accepted escapes.
pub open spec fn read_str(s: Seq<char>) -> Option<(Seq<char>, Seq<char>)>
    decreases s.len(),
{
    if s.len() == 0 {
        None
    } else if s[0] == '"' {
        Some((Seq::empty(), s.skip(1)))
    } else if s[0] == '\\' {
        if s.len() >= 2 && (s[1] == '"' || s[1] == '\\') {
            match read_str(s.skip(2)) {
                Some(p) => Some((seq![s[1]] + p.0, p.1)),
                None => None,
            }
        } else {
            None
        }
    } else {
        match read_str(s.skip(1)) {
            Some(p) => Some((seq![s[0]] + p.0, p.1)),
            None => None,
        }
    }
}

/// The reader inverts the writer: after `esc(v)` and a closing quote it
/// returns exactly `v` and the remainder.
pub proof fn lemma_read_str_complete(v: Seq<char>, rest: Seq<char>)
    ensures
        read_str(esc(v) + seq!['"'] + rest) == Some((v, rest)),
    decreases v.len(),
{
    let s = esc(v) + seq!['"'] + rest;
    if v.len() == 0 {
        assert(esc(v) =~= Seq::<char>::empty());
        assert(s =~= seq!['"'] + rest);
        assert(s[0] == '"');
        assert(s.skip(1) =~= rest);
    } else {
        let c = v[0];
        let v1 = v.skip(1);
        assert(esc(v) == esc_char(c) + esc(v1));
        lemma_read_str_complete(v1, rest);
        let s1 = esc(v1) + seq!['"'] + rest;
        if c == '"' || c == '\\' {
            assert(esc_char(c) == seq!['\\', c]);
            assert(s.len() >= 2 && s[0] == '\\' && s[1] == c);
            assert(s.skip(2) =~= s1);
            assert(read_str(s) == Some((seq![c] + v1, rest)));
            assert(seq![c] + v1 =~= v);
        } else {
            assert(esc_char(c) == seq![c]);
            assert(s[0] == c && c != '"' && c != '\\');
            assert(s.skip(1) =~= s1);
            assert(read_str(s) == Some((seq![c] + v1, rest)));
            assert(seq![c] + v1 =~= v);
        }
    }
}

/// Whatever the reader accepts is the escape of what it returns.
pub proof fn lemma_read_str_sound(s: Seq<char>)
    requires
        read_str(s) is Some,
    ensures
        s == esc((read_str(s)->0).0) + seq!['"'] + (read_str(s)->0).1,
    decreases s.len(),
{
    let v = (read_str(s)->0).0;
    let rest = (read_str(s)->0).1;
    if s[0] == '"' {
        assert(v =~= Seq::<char>::empty());
        assert(esc(v) =~= Seq::<char>::empty());
        assert(s =~= esc(v) + seq!['"'] + rest);
    } else if s[0] == '\\' {
        let p = read_str(s.skip(2))->0;
        lemma_read_str_sound(s.skip(2));
        assert(v == seq![s[1]] + p.0);
        assert(v[0] == s[1]);
        assert(v.skip(1) =~= p.0);
        assert(esc(v) == esc_char(s[1]) + esc(p.0));
        assert(esc_char(s[1]) == seq!['\\', s[1]]);
        assert(s =~= seq!['\\', s[1]] + s.skip(2));
        assert(s =~= esc(v) + seq!['"'] + rest);
    } else {
        let p = read_str(s.skip(1))->0;
        lemma_read_str_sound(s.skip(1));
        assert(v == seq![s[0]] + p.0);
        assert(v[0] == s[0]);
        assert(v.skip(1) =~= p.0);
        assert(esc(v) == esc_char(s[0]) + esc(p.0));
        assert(esc_char(s[0]) == seq![s[0]]);
        assert(s =~= seq![s[0]] + s.skip(1));
        assert(s =~= esc(v) + seq!['"'] + rest);
    }
}

/// Two escaped-and-quoted decompositions of one string coincide.
pub proof fn lemma_esc_quote_unique(a: Seq<char>, ta: Seq<char>, b: Seq<char>, tb: Seq<char>)
    requires
        esc(a) + seq!['"'] + ta == esc(b) + seq!['"'] + tb,
    ensures
        a == b && ta == tb,
{
    lemma_read_str_complete(a, ta);
    lemma_read_str_complete(b, tb);
}

// ---------------------------------------------------------------------------
// Decimal reader
// ---------------------------------------------------------------------------

/// Splits a leading run of decimal digits off `s`.
pub open spec fn read_digits(s: Seq<char>) -> (Seq<char>, Seq<char>)
    decreases s.len(),
{
    if s.len() > 0 && is_digit_char(s[0]) {
        let p = read_digits(s.skip(1));
        (seq![s[0]] + p.0, p.1)
    } else {
        (Seq::empty(), s)
    }
}

pub proof fn lemma_read_digits_complete(ds: Seq<char>, rest: Seq<char>)
    requires
        all_digits(ds),
        rest.len() == 0 || !is_digit_char(rest[0]),
    ensures
        read_digits(ds + rest) == (ds, rest),
    decreases ds.len(),
{
    let s = ds + rest;
    if ds.len() == 0 {
        assert(s =~= rest);
        if s.len() > 0 {
            assert(!is_digit_char(s[0]));
        }
        assert(read_digits(s) == (Seq::<char>::empty(), s));
    } else {
        assert(is_digit_char(s[0]));
        assert(s.skip(1) =~= ds.skip(1) + rest);
        assert(all_digits(ds.skip(1)));
        lemma_read_digits_complete(ds.skip(1), rest);
        assert(read_digits(s).0 == seq![ds[0]] + ds.skip(1));
        assert(seq![ds[0]] + ds.skip(1) =~= ds);
    }
}

pub proof fn lemma_read_digits_sound(s: Seq<char>)
    ensures
        s == read_digits(s).0 + read_digits(s).1,
        all_digits(read_digits(s).0),
        read_digits(s).1.len() == 0 || !is_digit_char(read_digits(s).1[0]),
    decreases s.len(),
{
    if s.len() > 0 && is_digit_char(s[0]) {
        lemma_read_digits_sound(s.skip(1));
        assert(s =~= seq![s[0]] + s.skip(1));
        assert(seq![s[0]] + (read_digits(s.skip(1)).0 + read_digits(s.skip(1)).1) =~= (seq![s[0]]
            + read_digits(s.skip(1)).0) + read_digits(s.skip(1)).1);
    } else {
        assert(s =~= Seq::<char>::empty() + s);
    }
}

/// Reads a canonical decimal integer that fits in `i64`: an optional minus
/// sign (never on zero), then digits with no superfluous leading zero.
pub open spec fn read_int(s: Seq<char>) -> Option<(int, Seq<char>)> {
    if s.len() == 0 {
        None
    } else {
        let neg = s[0] == '-';
        let body = if neg {
            s.skip(1)
        } else {
            s
        };
        let ds = read_digits(body).0;
        let rest = read_digits(body).1;
        if ds.len() == 0 {
            None
        } else {
            let m = val_of(ds);
            if ds != dec_u(m) {
                None
            } else if neg && m == 0 {
                None
            } else {
                let n = if neg {
                    -m
                } else {
                    m
                };
                if I64_MIN_INT as int <= n <= i64::MAX as int {
                    Some((n, rest))
                } else {
                    None
                }
            }
        }
    }
}

pub proof fn lemma_read_int_complete(n: int, rest: Seq<char>)
    requires
        I64_MIN_INT as int <= n <= i64::MAX as int,
        rest.len() == 0 || !is_digit_char(rest[0]),
    ensures
        read_int(dec_i(n) + rest) == Some((n, rest)),
{
    let s = dec_i(n) + rest;
    if n >= 0 {
        lemma_dec_u_digits(n);
        lemma_read_digits_complete(dec_u(n), rest);
        assert(s == dec_u(n) + rest);
        assert(s.len() > 0);
        assert(s[0] == dec_u(n)[0]);
        assert(is_digit_char(s[0]));
        assert(s[0] != '-');
        lemma_val_dec_u(n);
        assert(read_digits(s).0 == dec_u(n));
        assert(val_of(dec_u(n)) == n);
    } else {
        let m = -n;
        lemma_dec_u_digits(m);
        assert(dec_i(n) == seq!['-'] + dec_u(m));
        assert(s[0] == '-');
        assert(s.skip(1) =~= dec_u(m) + rest);
        lemma_read_digits_complete(dec_u(m), rest);
        lemma_val_dec_u(m);
        assert(read_digits(s.skip(1)).0 == dec_u(m));
        assert(val_of(dec_u(m)) == m);
        assert(m != 0);
    }
}

pub proof fn lemma_read_int_sound(s: Seq<char>)
    requires
        read_int(s) is Some,
    ensures
        s == dec_i((read_int(s)->0).0) + (read_int(s)->0).1,
        I64_MIN_INT as int <= (read_int(s)->0).0 <= i64::MAX as int,
        (read_int(s)->0).1.len() == 0 || !is_digit_char((read_int(s)->0).1[0]),
{
    let neg = s[0] == '-';
    let body = if neg {
        s.skip(1)
    } else {
        s
    };
    let ds = read_digits(body).0;
    let rest = read_digits(body).1;
    let m = val_of(ds);
    lemma_read_digits_sound(body);
    assert(m >= 0) by {
        lemma_val_bounds(ds);
    }
    assert(ds == dec_u(m));
    if neg {
        assert(m != 0);
        assert((read_int(s)->0).0 == -m);
        assert(dec_i(-m) == seq!['-'] + dec_u(m));
        assert(s =~= seq!['-'] + body);
        assert(s =~= (seq!['-'] + dec_u(m)) + rest);
    } else {
        assert((read_int(s)->0).0 == m);
        assert(m >= 0) by {
            lemma_val_bounds(ds);
        }
        assert(dec_i(m) == dec_u(m));
        assert(s =~= dec_u(m) + rest);
    }
}

// ---------------------------------------------------------------------------
// Executable forms
// ---------------------------------------------------------------------------

/// Prepends an already-read prefix to a reader outcome.
pub open spec fn rs_step(
    acc: Seq<char>,
    o: Option<(Seq<char>, Seq<char>)>,
) -> Option<(Seq<char>, Seq<char>)> {
    match o {
        Some(p) => Some((acc + p.0, p.1)),
        None => None,
    }
}

proof fn lemma_rs_step_assoc(a: Seq<char>, b: Seq<char>, o: Option<(Seq<char>, Seq<char>)>)
    ensures
        rs_step(a, rs_step(b, o)) == rs_step(a + b, o),
{
    match o {
        Some(p) => {
            assert(a + (b + p.0) =~= (a + b) + p.0);
        },
        None => {},
    }
}

fn is_digit_c(c: char) -> (b: bool)
    ensures
        b == is_digit_char(c),
{
    c == '0' || c == '1' || c == '2' || c == '3' || c == '4' || c == '5' || c == '6' || c == '7'
        || c == '8' || c == '9'
}

fn digit_of(c: char) -> (d: u64)
    requires
        is_digit_char(c),
    ensures
        d as int == digit_val(c),
{
    if c == '0' {
        0
    } else if c == '1' {
        1
    } else if c == '2' {
        2
    } else if c == '3' {
        3
    } else if c == '4' {
        4
    } else if c == '5' {
        5
    } else if c == '6' {
        6
    } else if c == '7' {
        7
    } else if c == '8' {
        8
    } else {
        9
    }
}

/// Matches `lit` at position `i` of `s`; on success returns the position
/// just past it.
pub fn eat_at(s: &str, i: usize, lit: &str) -> (r: Option<usize>)
    requires
        i <= s@.len(),
    ensures
        match r {
            Some(j) => i <= j <= s@.len() && eat(s@.skip(i as int), lit@) == Some(
                s@.skip(j as int),
            ),
            None => eat(s@.skip(i as int), lit@) is None,
        },
{
    let n = s.unicode_len();
    let m = lit.unicode_len();
    if n - i < m {
        return None;
    }
    let mut k: usize = 0;
    while k < m
        invariant
            0 <= k <= m,
            i <= s@.len() - m,
            n == s@.len(),
            m == lit@.len(),
            forall|t: int| 0 <= t < k ==> s@[i + t] == lit@[t],
        decreases m - k,
    {
        if s.get_char(i + k) != lit.get_char(k) {
            proof {
                let suf = s@.skip(i as int);
                assert(suf.subrange(0, m as int)[k as int] == s@[i + k]);
                assert(suf.subrange(0, m as int) != lit@);
            }
            return None;
        }
        k += 1;
    }
    proof {
        let suf = s@.skip(i as int);
        assert(suf.subrange(0, m as int) =~= lit@);
        assert(suf.skip(m as int) =~= s@.skip(i + m));
    }
    Some(i + m)
}

/// Reads a quoted-string body at position `i` of `s`, as [`read_str`] does.
pub fn read_str_at(s: &str, i: usize) -> (r: Option<(String, usize)>)
    requires
        i <= s@.len(),
    ensures
        match r {
            Some(p) => i <= p.1 <= s@.len() && read_str(s@.skip(i as int)) == Some(
                (p.0@, s@.skip(p.1 as int)),
            ),
            None => read_str(s@.skip(i as int)) is None,
        },
{
    let n = s.unicode_len();
    let mut cur: usize = i;
    let mut acc = String::new();
    proof {
        assert(rs_step(acc@, read_str(s@.skip(i as int))) == read_str(s@.skip(i as int))) by {
            match read_str(s@.skip(i as int)) {
                Some(p) => {
                    assert(acc@ + p.0 =~= p.0);
                },
                None => {},
            }
        }
    }
    loop
        invariant
            i <= cur <= n,
            n == s@.len(),
            read_str(s@.skip(i as int)) == rs_step(acc@, read_str(s@.skip(cur as int))),
        decreases n - cur,
    {
        if cur == n {
            proof {
                assert(s@.skip(cur as int).len() == 0);
            }
            return None;
        }
        let c = s.get_char(cur);
        let ghost suf = s@.skip(cur as int);
        proof {
            assert(suf[0] == c);
            assert(suf.len() > 0);
        }
        if c == '"' {
            proof {
                assert(suf.skip(1) =~= s@.skip(cur + 1));
                assert(read_str(suf) == Some((Seq::<char>::empty(), s@.skip(cur + 1))));
                assert(acc@ + Seq::<char>::empty() =~= acc@);
            }
            return Some((acc, cur + 1));
        } else if c == '\\' {
            if cur + 1 == n {
                proof {
                    assert(suf.len() < 2);
                    assert(read_str(suf) is None);
                }
                return None;
            }
            let c2 = s.get_char(cur + 1);
            proof {
                assert(suf[1] == c2) by {
                    assert(suf[1] == s@[cur + 1]);
                }
            }
            if c2 == '"' {
                let ghost pre = acc@;
                acc.append("\"");
                proof {
                    reveal_strlit("\"");
                    assert("\""@ =~= seq!['"']);
                    assert(suf.skip(2) =~= s@.skip(cur + 2));
                    assert(read_str(suf) == rs_step(seq![c2], read_str(s@.skip(cur + 2))));
                    lemma_rs_step_assoc(pre, seq![c2], read_str(s@.skip(cur + 2)));
                }
                cur += 2;
            } else if c2 == '\\' {
                let ghost pre = acc@;
                acc.append("\\");
                proof {
                    reveal_strlit("\\");
                    assert("\\"@ =~= seq!['\\']);
                    assert(suf.skip(2) =~= s@.skip(cur + 2));
                    assert(read_str(suf) == rs_step(seq![c2], read_str(s@.skip(cur + 2))));
                    lemma_rs_step_assoc(pre, seq![c2], read_str(s@.skip(cur + 2)));
                }
                cur += 2;
            } else {
                proof {
                    assert(read_str(suf) is None);
                }
                return None;
            }
        } else {
            let piece = s.substring_char(cur, cur + 1);
            let ghost pre = acc@;
            acc.append(piece);
            proof {
                assert(piece@ =~= seq![c]);
                assert(suf.skip(1) =~= s@.skip(cur + 1));
                assert(read_str(suf) == rs_step(seq![c], read_str(s@.skip(cur + 1))));
                lemma_rs_step_assoc(pre, seq![c], read_str(s@.skip(cur + 1)));
            }
            cur += 1;
        }
    }
}

proof fn lemma_pow10_19()
    ensures
        pow10(19) == 10_000_000_000_000_000_000,
{
    reveal_with_fuel(pow10, 21);
}

/// Reads a canonical decimal integer at position `i` of `s`, as
/// [`read_int`] does.
pub fn read_int_at(s: &str, i: usize) -> (r: Option<(i64, usize)>)
    requires
        i <= s@.len(),
    ensures
        match r {
            Some(p) => i <= p.1 <= s@.len() && read_int(s@.skip(i as int)) == Some(
                (p.0 as int, s@.skip(p.1 as int)),
            ),
            None => read_int(s@.skip(i as int)) is None,
        },
{
    let n = s.unicode_len();
    let ghost suf = s@.skip(i as int);
    if i == n {
        return None;
    }
    let neg = s.get_char(i) == '-';
    let start: usize = if neg {
        i + 1
    } else {
        i
    };
    let ghost body = s@.skip(start as int);
    proof {
        assert(suf[0] == s@[i as int]);
        if neg {
            assert(suf.skip(1) =~= body);
        }
    }
    let mut k: usize = start;
    while k < n && is_digit_c(s.get_char(k))
        invariant
            start <= k <= n,
            n == s@.len(),
            start <= s@.len(),
            forall|t: int| start <= t < k ==> is_digit_char(s@[t]),
        decreases n - k,
    {
        k += 1;
    }
    let ghost ds = s@.subrange(start as int, k as int);
    let ghost rest = s@.skip(k as int);
    proof {
        assert(all_digits(ds));
        assert(body =~= ds + rest);
        if k < n {
            assert(rest[0] == s@[k as int]);
            assert(!is_digit_char(rest[0]));
        }
        lemma_read_digits_complete(ds, rest);
        assert(read_digits(body) == (ds, rest));
    }
    if k == start {
        proof {
            assert(read_int(suf) is None);
        }
        return None;
    }
    if s.get_char(start) == '0' && k > start + 1 {
        // a further digit after a leading zero is never canonical
        proof {
            let m = val_of(ds);
            lemma_val_bounds(ds);
            if m == 0 {
                assert(dec_u(m).len() == 1);
                assert(ds != dec_u(m));
            } else {
                lemma_dec_u_digits(m);
                if m < 10 {
                    assert(dec_u(m).len() == 1);
                    assert(ds != dec_u(m));
                } else {
                    assert(dec_u(m)[0] != '0');
                    assert(ds[0] == '0');
                    assert(ds != dec_u(m));
                }
            }
            assert(read_int(suf) is None);
        }
        return None;
    }
    if k - start > 19 {
        proof {
            let m = val_of(ds);
            assert(ds[0] != '0');
            lemma_val_bounds(ds);
            lemma_pow10_19();
            lemma_pow10_mono(19, ds.len() - 1);
            assert(m >= pow10(19));
            lemma_canonical_digits(ds);
            assert(read_int(suf) is None);
        }
        return None;
    }
    let mut acc: u64 = 0;
    let mut j: usize = start;
    while j < k
        invariant
            start <= j <= k <= n,
            n == s@.len(),
            k - start <= 19,
            ds == s@.subrange(start as int, k as int),
            all_digits(ds),
            forall|t: int| start <= t < k ==> is_digit_char(s@[t]),
            acc as int == val_of(s@.subrange(start as int, j as int)),
            (acc as int) < pow10(j - start),
        decreases k - j,
    {
        let c = s.get_char(j);
        let d = digit_of(c);
        proof {
            lemma_pow10_19();
            lemma_pow10_mono(j - start, 18);
            assert((acc as int) * 10 + d < pow10(j + 1 - start)) by (nonlinear_arith)
                requires
                    (acc as int) < pow10(j - start),
                    0 <= d < 10,
                    pow10(j + 1 - start) == 10 * pow10(j - start),
            ;
            assert(pow10(j + 1 - start) <= pow10(19)) by {
                lemma_pow10_mono(j + 1 - start, 19);
            }
            let pre = s@.subrange(start as int, j as int);
            let pre1 = s@.subrange(start as int, j + 1 as int);
            assert(pre1.drop_last() =~= pre);
            assert(pre1.last() == s@[j as int]);
            assert(val_of(pre1) == val_of(pre) * 10 + digit_val(s@[j as int]));
        }
        acc = acc * 10 + d;
        j += 1;
    }
    proof {
        assert(acc as int == val_of(ds));
        assert(ds[0] == s@[start as int]);
        if ds.len() > 1 {
            assert(ds[0] != '0');
        }
        lemma_canonical_digits(ds);
        assert(ds == dec_u(acc as int));
    }
    if neg {
        if acc == 0 {
            proof {
                assert(read_int(suf) is None);
            }
            return None;
        }
        if acc > 9223372036854775808u64 {
            proof {
                assert(read_int(suf) is None);
            }
            return None;
        }
        let v: i64 = if acc == 9223372036854775808u64 {
            I64_MIN_INT
        } else {
            -(acc as i64)
        };
        proof {
            assert(v as int == -(acc as int));
            assert(read_int(suf) == Some((v as int, rest)));
        }
        Some((v, k))
    } else {
        if acc > 9223372036854775807u64 {
            proof {
                assert(read_int(suf) is None);
            }
            return None;
        }
        let v: i64 = acc as i64;
        proof {
            assert(read_int(suf) == Some((v as int, rest)));
        }
        Some((v, k))
    }
}


} // verus!
