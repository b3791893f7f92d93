//! General string utilities: slugs, masking, escaping, size formatting.
//! Unicode classification and case folding come from the standard library
//! behind trusted wrappers whose results are named; everything built on top
//! of them is verified.

use vstd::prelude::*;

use crate::text::{dec_i, dec_u, digit_char, int_to_string, is_digit_char, u64_to_string};
use vstd::utf8::{char_is_scalar, encode_scalar, encode_utf8};
use base64::Engine;
use rand::RngExt;
use regex::Regex;

verus! {

// ---------------------------------------------------------------------------
// Named results of standard-library and regex classification
// ---------------------------------------------------------------------------

/// Whether a character is alphanumeric in the Unicode sense of
/// `char::is_alphanumeric`.
pub uninterp spec fn is_alnum(c: char) -> bool;

/// The Unicode lowercase form of a string, as `str::to_lowercase` computes
/// it.
pub uninterp spec fn lower_of(s: Seq<char>) -> Seq<char>;

/// Whether a string matches the library's email shape.
pub uninterp spec fn matches_email_pattern(s: Seq<char>) -> bool;

/// Relies on `char::is_alphanumeric`: a pure character classification.
#[verifier::external_body]
fn char_is_alnum(c: char) -> (b: bool)
    ensures
        b == is_alnum(c),
{
    c.is_alphanumeric()
}

/// Relies on `str::to_lowercase`: the result depends on the characters
/// alone, and an empty string stays empty.
#[verifier::external_body]
fn to_lowercase_str(s: &str) -> (r: String)
    ensures
        r@ == lower_of(s@),
        s@.len() == 0 ==> r@.len() == 0,
{
    s.to_lowercase()
}

/// Relies on `regex::Regex::is_match` over a fixed email pattern; the
/// pattern is a valid expression, so compiling it cannot fail.
#[verifier::external_body]
pub fn is_valid_email(email: &str) -> (r: bool)
    ensures
        r == matches_email_pattern(email@),
{
    let email_regex = Regex::new(
        r"^[a-zA-Z0-9.!#$%&'*+/=?^_`{|}~-]+@[a-zA-Z0-9](?:[a-zA-Z0-9-]{0,61}[a-zA-Z0-9])?(?:\.[a-zA-Z0-9](?:[a-zA-Z0-9-]{0,61}[a-zA-Z0-9])?)*$",
    ).unwrap();
    email_regex.is_match(email)
}

/// A character from the ASCII ranges `0-9`, `A-Z`, `a-z`.
pub open spec fn is_ascii_alnum_char(c: char) -> bool {
    48 <= c as u32 <= 57 || 65 <= c as u32 <= 90 || 97 <= c as u32 <= 122
}

/// Relies on `rand`'s `Alphanumeric` distribution: a random string of
/// exactly the requested number of characters, each drawn from the ASCII
/// alphanumeric set.
#[verifier::external_body]
pub fn generate_random_string(length: usize) -> (r: String)
    ensures
        r@.len() == length,
        forall|i: int| 0 <= i < r@.len() ==> is_ascii_alnum_char(r@[i]),
{
    rand::rng().sample_iter(rand::distr::Alphanumeric).take(length).map(char::from).collect()
}

// ---------------------------------------------------------------------------
// Slug generation
// ---------------------------------------------------------------------------

/// One step of slug building: an alphanumeric character is appended, with a
/// single dash first when non-alphanumeric characters were skipped since the
/// last one; anything else only records that a separator is due.
pub open spec fn slug_step(out: Seq<char>, sep: bool, c: char) -> (Seq<char>, bool) {
    if is_alnum(c) {
        if sep && out.len() > 0 {
            (out + seq!['-'] + seq![c], false)
        } else {
            (out + seq![c], false)
        }
    } else {
        (out, true)
    }
}

pub open spec fn slug_fold(s: Seq<char>, out: Seq<char>, sep: bool) -> Seq<char>
    decreases s.len(),
{
    if s.len() == 0 {
        out
    } else {
        let st = slug_step(out, sep, s[0]);
        slug_fold(s.skip(1), st.0, st.1)
    }
}

/// The slug of a string: its maximal alphanumeric runs, joined by single
/// dashes.
pub open spec fn slug_of(s: Seq<char>) -> Seq<char> {
    slug_fold(s, Seq::empty(), false)
}

/// The running state of the slug fold: the output so far and whether a
/// separator is pending.
pub open spec fn slug_fold_state(s: Seq<char>, out: Seq<char>, sep: bool) -> (Seq<char>, bool)
    decreases s.len(),
{
    if s.len() == 0 {
        (out, sep)
    } else {
        let st = slug_step(out, sep, s[0]);
        slug_fold_state(s.skip(1), st.0, st.1)
    }
}

proof fn lemma_slug_fold_is_state(s: Seq<char>, out: Seq<char>, sep: bool)
    ensures
        slug_fold(s, out, sep) == slug_fold_state(s, out, sep).0,
    decreases s.len(),
{
    if s.len() > 0 {
        let st = slug_step(out, sep, s[0]);
        lemma_slug_fold_is_state(s.skip(1), st.0, st.1);
    }
}

proof fn lemma_slug_state_snoc(s: Seq<char>, c: char, out: Seq<char>, sep: bool)
    ensures
        slug_fold_state(s.push(c), out, sep) == slug_step(slug_fold_state(s, out, sep).0,
        slug_fold_state(s, out, sep).1, c),
    decreases s.len(),
{
    if s.len() == 0 {
        assert(s.push(c)[0] == c);
        assert(s.push(c).skip(1) =~= Seq::<char>::empty());
        let st = slug_step(out, sep, c);
        assert(slug_fold_state(s.push(c), out, sep) == slug_fold_state(
            Seq::<char>::empty(),
            st.0,
            st.1,
        ));
        assert(slug_fold_state(Seq::<char>::empty(), st.0, st.1) == st);
        assert(slug_fold_state(s, out, sep) == (out, sep));
    } else {
        assert(s.push(c)[0] == s[0]);
        assert(s.push(c).skip(1) =~= s.skip(1).push(c));
        let st = slug_step(out, sep, s[0]);
        lemma_slug_state_snoc(s.skip(1), c, st.0, st.1);
    }
}

/// Lowercases the text and joins its alphanumeric runs with single dashes.
pub fn generate_slug(text: &str) -> (r: String)
    ensures
        r@ == slug_of(lower_of(text@)),
{
    let lowered = to_lowercase_str(text);
    let l = lowered.as_str();
    let n = l.unicode_len();
    let mut out = String::new();
    let mut sep = false;
    let mut i: usize = 0;
    proof {
        assert(l@.subrange(0, 0) =~= Seq::<char>::empty());
    }
    while i < n
        invariant
            0 <= i <= n,
            n == l@.len(),
            l@ == lower_of(text@),
            (out@, sep) == slug_fold_state(l@.subrange(0, i as int), Seq::<char>::empty(), false),
        decreases n - i,
    {
        let c = l.get_char(i);
        let ghost pre = l@.subrange(0, i as int);
        if char_is_alnum(c) {
            if sep && out.as_str().unicode_len() > 0 {
                out.append("-");
                proof {
                    reveal_strlit("-");
                    assert("-"@ =~= seq!['-']);
                }
            }
            let piece = l.substring_char(i, i + 1);
            out.append(piece);
            proof {
                assert(piece@ =~= seq![c]);
            }
            sep = false;
        } else {
            sep = true;
        }
        proof {
            lemma_slug_state_snoc(pre, c, Seq::<char>::empty(), false);
            assert(l@.subrange(0, i + 1 as int) =~= pre.push(c));
        }
        i += 1;
    }
    proof {
        assert(l@.subrange(0, n as int) =~= l@);
        lemma_slug_fold_is_state(l@, Seq::<char>::empty(), false);
    }
    out
}


// ---------------------------------------------------------------------------
// UTF-8 byte lengths
// ---------------------------------------------------------------------------

/// Width in bytes of one character's UTF-8 encoding.
pub open spec fn utf8_len(c: char) -> int {
    encode_scalar(c as u32).len() as int
}

/// Length in bytes of a string's UTF-8 encoding, summed character by
/// character.
pub open spec fn byte_len(s: Seq<char>) -> int
    decreases s.len(),
{
    if s.len() == 0 {
        0
    } else {
        utf8_len(s[0]) + byte_len(s.skip(1))
    }
}

pub proof fn lemma_utf8_len_bounds(c: char)
    ensures
        1 <= utf8_len(c) <= 4,
{
    let v = c as u32;
    if vstd::utf8::has_width_1_encoding(v) {
        assert(encode_scalar(v).len() == 1);
    } else if vstd::utf8::has_width_2_encoding(v) {
        assert(encode_scalar(v).len() == 2);
    } else if vstd::utf8::has_width_3_encoding(v) {
        assert(encode_scalar(v).len() == 3);
    } else {
        assert(encode_scalar(v).len() == 4);
    }
}

pub proof fn lemma_byte_len_nonneg(s: Seq<char>)
    ensures
        byte_len(s) >= 0,
        s.len() > 0 ==> byte_len(s) >= 1,
    decreases s.len(),
{
    if s.len() > 0 {
        lemma_utf8_len_bounds(s[0]);
        lemma_byte_len_nonneg(s.skip(1));
    }
}

/// The character-wise sum equals the length of the whole encoding.
pub proof fn lemma_byte_len_is_encoding(s: Seq<char>)
    ensures
        byte_len(s) == encode_utf8(s).len(),
    decreases s.len(),
{
    if s.len() > 0 {
        assert(s.drop_first() =~= s.skip(1));
        lemma_byte_len_is_encoding(s.skip(1));
        assert(encode_utf8(s) == encode_scalar(s[0] as u32) + encode_utf8(s.drop_first()));
    }
}

pub proof fn lemma_byte_len_snoc(s: Seq<char>, c: char)
    ensures
        byte_len(s.push(c)) == byte_len(s) + utf8_len(c),
    decreases s.len(),
{
    if s.len() == 0 {
        assert(s.push(c)[0] == c);
        assert(s.push(c).skip(1) =~= Seq::<char>::empty());
        assert(byte_len(Seq::<char>::empty()) == 0);
        assert(byte_len(s) == 0);
    } else {
        assert(s.push(c)[0] == s[0]);
        assert(s.push(c).skip(1) =~= s.skip(1).push(c));
        lemma_byte_len_snoc(s.skip(1), c);
    }
}

fn char_utf8_len(c: char) -> (r: usize)
    ensures
        r as int == utf8_len(c),
        1 <= r <= 4,
{
    proof {
        char_is_scalar(c);
    }
    let v = c as u32;
    if v < 0x80 {
        proof {
            assert(encode_scalar(v).len() == 1);
        }
        1
    } else if v < 0x800 {
        proof {
            assert(encode_scalar(v).len() == 2);
        }
        2
    } else if v < 0x10000 {
        proof {
            assert(vstd::utf8::has_width_3_encoding(v));
            assert(encode_scalar(v).len() == 3);
        }
        3
    } else {
        proof {
            assert(encode_scalar(v).len() == 4);
        }
        4
    }
}

fn str_byte_len(s: &str) -> (r: usize)
    ensures
        r as int == byte_len(s@),
{
    let b = s.as_bytes();
    proof {
        lemma_byte_len_is_encoding(s@);
        assert(b@ == encode_utf8(s@));
    }
    b.len()
}

/// The longest prefix whose UTF-8 encoding fits in `k` bytes.
pub open spec fn take_bytes(s: Seq<char>, k: int) -> Seq<char>
    decreases s.len(),
{
    if s.len() == 0 || utf8_len(s[0]) > k {
        Seq::empty()
    } else {
        seq![s[0]] + take_bytes(s.skip(1), k - utf8_len(s[0]))
    }
}

// ---------------------------------------------------------------------------
// Truncation
// ---------------------------------------------------------------------------

/// Shortens a string to at most `max_len` UTF-8 bytes, marking a cut with an
/// ellipsis; a string within the limit is returned unchanged. The cut leaves
/// three bytes for the ellipsis, and where it would split a character it
/// moves back to the previous character boundary (a byte slice there would
/// not be a string).
pub fn truncate_string(s: &str, max_len: usize) -> (r: String)
    ensures
        byte_len(s@) <= max_len ==> r@ == s@,
        byte_len(s@) > max_len ==> r@ == take_bytes(
            s@,
            if max_len >= 3 {
                (max_len - 3) as int
            } else {
                0
            },
        ) + "..."@,
{
    let nb = str_byte_len(s);
    if nb <= max_len {
        return s.to_owned();
    }
    let keep: usize = if max_len >= 3 {
        max_len - 3
    } else {
        0
    };
    let nchars = s.unicode_len();
    let mut i: usize = 0;
    let mut b: usize = 0;
    proof {
        assert(s@.subrange(0, 0) =~= Seq::<char>::empty());
        assert(byte_len(Seq::<char>::empty()) == 0);
        assert(s@.skip(0) =~= s@);
    }
    loop
        invariant
            0 <= i <= nchars,
            nchars == s@.len(),
            b <= keep <= max_len,
            keep as int == if max_len >= 3 {
                (max_len - 3) as int
            } else {
                0
            },
            b as int == byte_len(s@.subrange(0, i as int)),
            take_bytes(s@, keep as int) == s@.subrange(0, i as int) + take_bytes(
                s@.skip(i as int),
                keep - b,
            ),
            byte_len(s@) > max_len,
        decreases nchars - i,
    {
        if i == nchars {
            proof {
                assert(s@.subrange(0, i as int) =~= s@);
                assert(false);
            }
            return s.to_owned();
        }
        let c = s.get_char(i);
        let w = char_utf8_len(c);
        let ghost suf = s@.skip(i as int);
        proof {
            assert(suf.len() > 0 && suf[0] == c);
        }
        if w > keep - b {
            proof {
                assert(take_bytes(suf, keep - b) =~= Seq::<char>::empty());
                assert(s@.subrange(0, i as int) + Seq::<char>::empty() =~= s@.subrange(
                    0,
                    i as int,
                ));
            }
            let mut r = s.substring_char(0, i).to_owned();
            r.append("...");
            proof {
                assert(take_bytes(s@, keep as int) == s@.subrange(0, i as int));
                assert(r@ == take_bytes(s@, keep as int) + "..."@);
                assert(keep as int == if max_len >= 3 {
                    (max_len - 3) as int
                } else {
                    0
                });
            }
            return r;
        }
        proof {
            assert(take_bytes(suf, keep - b) == seq![c] + take_bytes(
                suf.skip(1),
                keep - b - utf8_len(c),
            ));
            assert(suf.skip(1) =~= s@.skip(i + 1));
            lemma_byte_len_snoc(s@.subrange(0, i as int), c);
            assert(s@.subrange(0, i + 1 as int) =~= s@.subrange(0, i as int).push(c));
            assert(s@.subrange(0, i as int) + (seq![c] + take_bytes(
                s@.skip(i + 1),
                keep - b - utf8_len(c),
            )) =~= s@.subrange(0, i + 1 as int) + take_bytes(s@.skip(i + 1), keep - b - utf8_len(c)));
        }
        b = b + w;
        i = i + 1;
    }
}

// ---------------------------------------------------------------------------
// File-size formatting
// ---------------------------------------------------------------------------

/// `num / den` rounded to the nearest integer, ties to even.
pub open spec fn round_half_even(num: int, den: int) -> int
    recommends
        den > 0,
        num >= 0,
{
    let q = num / den;
    let r = num % den;
    if 2 * r > den {
        q + 1
    } else if 2 * r < den {
        q
    } else if q % 2 == 0 {
        q
    } else {
        q + 1
    }
}

/// `b / div` with two decimal places, as digits.
pub open spec fn scaled_hundredths_str(b: int, div: int) -> Seq<char>
    recommends
        div > 0,
        b >= 0,
{
    let h = round_half_even(100 * b, div);
    dec_u(h / 100) + seq!['.'] + seq![digit_char((h % 100) / 10), digit_char(h % 10)]
}

/// Renders a byte count with a binary unit: whole bytes below 1024, else
/// two decimals of the matching unit.
pub fn format_file_size(bytes: u64) -> (r: String)
    ensures
        bytes >= 0x40000000 ==> r@ == scaled_hundredths_str(bytes as int, 0x40000000) + " GB"@,
        0x100000 <= bytes < 0x40000000 ==> r@ == scaled_hundredths_str(bytes as int, 0x100000)
            + " MB"@,
        0x400 <= bytes < 0x100000 ==> r@ == scaled_hundredths_str(bytes as int, 0x400) + " KB"@,
        bytes < 0x400 ==> r@ == dec_u(bytes as int) + " bytes"@,
{
    if bytes >= 0x40000000 {
        let mut r = scaled_str(bytes, 0x40000000);
        r.append(" GB");
        r
    } else if bytes >= 0x100000 {
        let mut r = scaled_str(bytes, 0x100000);
        r.append(" MB");
        r
    } else if bytes >= 0x400 {
        let mut r = scaled_str(bytes, 0x400);
        r.append(" KB");
        r
    } else {
        let mut r = u64_to_string(bytes);
        r.append(" bytes");
        r
    }
}

/// Two-decimal rendering of `b / div`, rounded half to even.
fn scaled_str(b: u64, div: u64) -> (r: String)
    requires
        div >= 1,
    ensures
        r@ == scaled_hundredths_str(b as int, div as int),
{
    let num: u128 = (b as u128) * 100;
    let den: u128 = div as u128;
    let q: u128 = num / den;
    let rem: u128 = num % den;
    let h: u128 = if 2 * rem > den {
        q + 1
    } else if 2 * rem < den {
        q
    } else if q % 2 == 0 {
        q
    } else {
        q + 1
    };
    proof {
        assert(num == 100 * b) by (nonlinear_arith)
            requires
                num == (b as u128) * 100,
        ;
        assert(q * den <= num) by (nonlinear_arith)
            requires
                q == num / den,
                den >= 1,
        ;
        assert(h as int == round_half_even(100 * (b as int), div as int));
        assert(q <= num) by (nonlinear_arith)
            requires
                q == num / den,
                den >= 1,
        ;
        assert(h <= num + 1);
        assert(num <= 0xffffffffffffffff * 100) by (nonlinear_arith)
            requires
                num == (b as u128) * 100,
                b <= 0xffffffffffffffff,
        ;
        vstd::arithmetic::div_mod::lemma_div_is_ordered(
            h as int,
            (0xffffffffffffffff * 100 + 1) as int,
            100,
        );
        assert((0xffffffffffffffff * 100 + 1) / 100 == 0xffffffffffffffff);
    }
    let whole: u64 = (h / 100) as u64;
    let frac: u64 = (h % 100) as u64;
    let mut r = u64_to_string(whole);
    r.append(".");
    r.append(digit_str_pub(frac / 10));
    r.append(digit_str_pub(frac % 10));
    proof {
        reveal_strlit(".");
        assert("."@ =~= seq!['.']);
        assert(whole as int == round_half_even(100 * (b as int), div as int) / 100);
        assert(frac as int == round_half_even(100 * (b as int), div as int) % 100);
        assert(r@ =~= scaled_hundredths_str(b as int, div as int));
    }
    r
}

/// One-character string for a decimal digit.
fn digit_str_pub(d: u64) -> (r: &'static str)
    requires
        d < 10,
    ensures
        r@ =~= seq![digit_char(d as int)],
{
    proof {
        reveal_strlit("0");
        reveal_strlit("1");
        reveal_strlit("2");
        reveal_strlit("3");
        reveal_strlit("4");
        reveal_strlit("5");
        reveal_strlit("6");
        reveal_strlit("7");
        reveal_strlit("8");
        reveal_strlit("9");
    }
    match d {
        0 => "0",
        1 => "1",
        2 => "2",
        3 => "3",
        4 => "4",
        5 => "5",
        6 => "6",
        7 => "7",
        8 => "8",
        _ => "9",
    }
}

// ---------------------------------------------------------------------------
// HTML escaping
// ---------------------------------------------------------------------------

/// HTML entity for a markup-significant character; other characters stand
/// for themselves.
pub open spec fn html_escape_char(c: char) -> Seq<char> {
    if c == '&' {
        "&amp;"@
    } else if c == '<' {
        "&lt;"@
    } else if c == '>' {
        "&gt;"@
    } else if c == '"' {
        "&quot;"@
    } else if c == '\'' {
        "&#x27;"@
    } else {
        seq![c]
    }
}

pub open spec fn html_escape(s: Seq<char>) -> Seq<char>
    decreases s.len(),
{
    if s.len() == 0 {
        Seq::empty()
    } else {
        html_escape_char(s[0]) + html_escape(s.skip(1))
    }
}

proof fn lemma_html_escape_snoc(s: Seq<char>, c: char)
    ensures
        html_escape(s.push(c)) == html_escape(s) + html_escape_char(c),
    decreases s.len(),
{
    if s.len() == 0 {
        assert(s.push(c)[0] == c);
        assert(s.push(c).skip(1) =~= Seq::<char>::empty());
        assert(html_escape(Seq::<char>::empty()) =~= Seq::<char>::empty());
        assert(html_escape(s.push(c)) == html_escape_char(c) + html_escape(s.push(c).skip(1)));
        assert(html_escape_char(c) + Seq::<char>::empty() =~= html_escape_char(c));
        assert(html_escape(s) + html_escape_char(c) =~= html_escape_char(c));
    } else {
        assert(s.push(c)[0] == s[0]);
        assert(s.push(c).skip(1) =~= s.skip(1).push(c));
        lemma_html_escape_snoc(s.skip(1), c);
        assert(html_escape(s.push(c)) == html_escape_char(s[0]) + (html_escape(s.skip(1))
            + html_escape_char(c)));
        assert(html_escape_char(s[0]) + (html_escape(s.skip(1)) + html_escape_char(c)) =~= (
        html_escape_char(s[0]) + html_escape(s.skip(1))) + html_escape_char(c));
    }
}

/// Replaces the five markup-significant characters with their HTML entities.
pub fn sanitize_html(input: &str) -> (r: String)
    ensures
        r@ == html_escape(input@),
{
    let n = input.unicode_len();
    let mut out = String::new();
    let mut i: usize = 0;
    while i < n
        invariant
            0 <= i <= n,
            n == input@.len(),
            out@ == html_escape(input@.subrange(0, i as int)),
        decreases n - i,
    {
        let c = input.get_char(i);
        if c == '&' {
            out.append("&amp;");
        } else if c == '<' {
            out.append("&lt;");
        } else if c == '>' {
            out.append("&gt;");
        } else if c == '"' {
            out.append("&quot;");
        } else if c == '\'' {
            out.append("&#x27;");
        } else {
            let piece = input.substring_char(i, i + 1);
            out.append(piece);
            proof {
                assert(piece@ =~= seq![c]);
            }
        }
        proof {
            lemma_html_escape_snoc(input@.subrange(0, i as int), c);
            assert(input@.subrange(0, i + 1 as int) =~= input@.subrange(0, i as int).push(c));
            assert(out@ =~= html_escape(input@.subrange(0, i + 1 as int)));
        }
        i += 1;
    }
    proof {
        assert(input@.subrange(0, n as int) =~= input@);
    }
    out
}

// ---------------------------------------------------------------------------
// Masking
// ---------------------------------------------------------------------------

/// The local part of an address, masked. A local part of at most two UTF-8
/// bytes vanishes into that many asterisks; a longer one keeps its first and
/// last character around one asterisk per remaining byte. A first or last
/// character wider than one byte is kept whole (a byte slice into it would
/// not be a string).
pub open spec fn mask_local(l: Seq<char>) -> Seq<char> {
    if byte_len(l) <= 2 {
        Seq::new(byte_len(l) as nat, |i: int| '*')
    } else {
        seq![l[0]] + Seq::new((byte_len(l) - 2) as nat, |i: int| '*') + seq![l.last()]
    }
}

/// Masks the local part of an email address, byte for byte; input that is
/// not of the shape `local@domain` with exactly one `@` is returned
/// unchanged.
pub fn mask_email(email: &str) -> (r: String)
    ensures
        forall|i: int|
            (0 <= i < email@.len() && email@[i] == '@' && (forall|k: int|
                0 <= k < email@.len() && k != i ==> email@[k] != '@')) ==> r@ == mask_local(
                email@.subrange(0, i),
            ) + seq!['@'] + email@.subrange(i + 1, email@.len() as int),
        (forall|k: int| 0 <= k < email@.len() ==> email@[k] != '@') ==> r@ == email@,
        (exists|i: int, j: int|
            0 <= i < j < email@.len() && email@[i] == '@' && email@[j] == '@') ==> r@ == email@,
{
    let n = email.unicode_len();
    let mut i: usize = 0;
    let mut count: usize = 0;
    let mut at: usize = 0;
    while i < n
        invariant
            0 <= i <= n,
            n == email@.len(),
            count == 0 ==> forall|k: int| 0 <= k < i ==> email@[k] != '@',
            count == 1 ==> at < i && email@[at as int] == '@' && (forall|k: int|
                0 <= k < i && k != at ==> email@[k] != '@'),
            count >= 2 ==> exists|a: int, b: int|
                0 <= a < b < i && email@[a] == '@' && email@[b] == '@',
            count <= 2,
        decreases n - i,
    {
        if email.get_char(i) == '@' {
            if count == 0 {
                at = i;
                count = 1;
            } else if count == 1 {
                count = 2;
            }
        }
        i += 1;
    }
    if count != 1 {
        return email.to_owned();
    }
    let local_str = email.substring_char(0, at);
    let lb = str_byte_len(local_str);
    let ghost local = email@.subrange(0, at as int);
    proof {
        lemma_byte_len_nonneg(local);
    }
    let mut out = String::new();
    if lb <= 2 {
        append_stars(&mut out, lb);
    } else {
        proof {
            if local.len() == 0 {
                assert(byte_len(local) == 0);
            }
        }
        let first = email.substring_char(0, 1);
        out.append(first);
        proof {
            assert(first@ =~= seq![email@[0]]);
            assert(local[0] == email@[0]);
        }
        append_stars(&mut out, lb - 2);
        let last = email.substring_char(at - 1, at);
        out.append(last);
        proof {
            assert(last@ =~= seq![local.last()]);
        }
    }
    proof {
        assert(out@ =~= mask_local(email@.subrange(0, at as int)));
    }
    let domain = email.substring_char(at, n);
    out.append(domain);
    proof {
        assert(domain@ =~= seq!['@'] + email@.subrange(at + 1, n as int));
        assert(out@ =~= mask_local(email@.subrange(0, at as int)) + seq!['@'] + email@.subrange(
            at + 1,
            n as int,
        ));
    }
    out
}

/// Appends `n` asterisks to `out`.
fn append_stars(out: &mut String, n: usize)
    ensures
        final(out)@ == old(out)@ + Seq::new(n as nat, |i: int| '*'),
{
    let mut k: usize = 0;
    while k < n
        invariant
            0 <= k <= n,
            out@ == old(out)@ + Seq::new(k as nat, |i: int| '*'),
        decreases n - k,
    {
        out.append("*");
        proof {
            reveal_strlit("*");
            assert("*"@ =~= seq!['*']);
            assert(old(out)@ + Seq::new(k as nat, |i: int| '*') + seq!['*'] =~= old(out)@
                + Seq::new((k + 1) as nat, |i: int| '*'));
        }
        k += 1;
    }
}

/// The decimal digits of a string, in order.
pub open spec fn digits_of(s: Seq<char>) -> Seq<char>
    decreases s.len(),
{
    if s.len() == 0 {
        Seq::empty()
    } else if is_digit_char(s[0]) {
        seq![s[0]] + digits_of(s.skip(1))
    } else {
        digits_of(s.skip(1))
    }
}

proof fn lemma_digits_snoc(s: Seq<char>, c: char)
    ensures
        digits_of(s.push(c)) == if is_digit_char(c) {
            digits_of(s).push(c)
        } else {
            digits_of(s)
        },
    decreases s.len(),
{
    if s.len() == 0 {
        assert(s.push(c)[0] == c);
        assert(s.push(c).skip(1) =~= Seq::<char>::empty());
        assert(digits_of(Seq::<char>::empty()) == Seq::<char>::empty());
        assert(digits_of(s) == Seq::<char>::empty());
        if is_digit_char(c) {
            assert(digits_of(s.push(c)) == seq![c] + digits_of(Seq::<char>::empty()));
            assert(seq![c] + Seq::<char>::empty() =~= digits_of(s).push(c));
        } else {
            assert(digits_of(s.push(c)) == digits_of(Seq::<char>::empty()));
        }
    } else {
        assert(s.push(c)[0] == s[0]);
        assert(s.push(c).skip(1) =~= s.skip(1).push(c));
        lemma_digits_snoc(s.skip(1), c);
        if is_digit_char(s[0]) {
            if is_digit_char(c) {
                assert(seq![s[0]] + digits_of(s.skip(1)).push(c) =~= (seq![s[0]] + digits_of(
                    s.skip(1),
                )).push(c));
            }
        }
    }
}

/// Masks a card number down to its last four digits; fewer than four digits
/// are replaced by that many asterisks.
pub fn mask_credit_card(card_number: &str) -> (r: String)
    ensures
        digits_of(card_number@).len() < 4 ==> r@ == Seq::new(
            digits_of(card_number@).len(),
            |i: int| '*',
        ),
        digits_of(card_number@).len() >= 4 ==> r@ == "****-****-****-"@ + digits_of(
            card_number@,
        ).subrange(
            digits_of(card_number@).len() - 4,
            digits_of(card_number@).len() as int,
        ),
{
    let n = card_number.unicode_len();
    let mut ds = String::new();
    let mut i: usize = 0;
    proof {
        assert(card_number@.subrange(0, 0) =~= Seq::<char>::empty());
    }
    while i < n
        invariant
            0 <= i <= n,
            n == card_number@.len(),
            ds@ == digits_of(card_number@.subrange(0, i as int)),
        decreases n - i,
    {
        let c = card_number.get_char(i);
        if is_ascii_digit(c) {
            let piece = card_number.substring_char(i, i + 1);
            ds.append(piece);
            proof {
                assert(piece@ =~= seq![c]);
            }
        }
        proof {
            lemma_digits_snoc(card_number@.subrange(0, i as int), c);
            assert(card_number@.subrange(0, i + 1 as int) =~= card_number@.subrange(
                0,
                i as int,
            ).push(c));
            if is_digit_char(c) {
                assert(ds@ =~= digits_of(card_number@.subrange(0, i + 1 as int)));
            }
        }
        i += 1;
    }
    proof {
        assert(card_number@.subrange(0, n as int) =~= card_number@);
    }
    let dn = ds.unicode_len();
    if dn < 4 {
        let mut out = String::new();
        append_stars(&mut out, dn);
        out
    } else {
        let mut out = String::new();
        out.append("****-****-****-");
        let tail = ds.as_str().substring_char(dn - 4, dn);
        out.append(tail);
        proof {
            assert(tail@ =~= digits_of(card_number@).subrange(
                digits_of(card_number@).len() - 4,
                digits_of(card_number@).len() as int,
            ));
        }
        out
    }
}

fn is_ascii_digit(c: char) -> (b: bool)
    ensures
        b == is_digit_char(c),
{
    c == '0' || c == '1' || c == '2' || c == '3' || c == '4' || c == '5' || c == '6' || c == '7'
        || c == '8' || c == '9'
}

// ---------------------------------------------------------------------------
// Filename sanitizing and clamping
// ---------------------------------------------------------------------------

pub open spec fn filename_char(c: char) -> char {
    if is_alnum(c) || c == '.' || c == '-' || c == '_' {
        c
    } else {
        '_'
    }
}

/// Keeps alphanumerics, dots, dashes and underscores; every other character
/// becomes an underscore.
pub fn sanitize_filename(filename: &str) -> (r: String)
    ensures
        r@ == filename@.map_values(|c: char| filename_char(c)),
{
    let n = filename.unicode_len();
    let mut out = String::new();
    let mut i: usize = 0;
    while i < n
        invariant
            0 <= i <= n,
            n == filename@.len(),
            out@ == filename@.subrange(0, i as int).map_values(|c: char| filename_char(c)),
        decreases n - i,
    {
        let c = filename.get_char(i);
        if char_is_alnum(c) || c == '.' || c == '-' || c == '_' {
            let piece = filename.substring_char(i, i + 1);
            out.append(piece);
            proof {
                assert(piece@ =~= seq![c]);
            }
        } else {
            out.append("_");
            proof {
                reveal_strlit("_");
                assert("_"@ =~= seq!['_']);
            }
        }
        proof {
            assert(out@ =~= filename@.subrange(0, i + 1 as int).map_values(
                |ch: char| filename_char(ch),
            ));
        }
        i += 1;
    }
    proof {
        assert(filename@.subrange(0, n as int) =~= filename@);
    }
    out
}

/// Restricts a value to the closed interval `[min, max]`; with an inverted
/// interval the lower bound is checked first and wins.
pub fn clamp(value: i64, min: i64, max: i64) -> (r: i64)
    ensures
        value < min ==> r == min,
        value >= min && value > max ==> r == max,
        min <= value <= max ==> r == value,
{
    if value < min {
        min
    } else if value > max {
        max
    } else {
        value
    }
}

// ---------------------------------------------------------------------------
// Duration formatting
// ---------------------------------------------------------------------------

/// The rendering of a span of `s` seconds: hours, minutes and seconds where
/// an hour is reached, minutes and seconds where a minute is, bare seconds
/// otherwise. Parts truncate toward zero, so a negative span falls through
/// to the bare-seconds form with its sign.
pub open spec fn duration_str(s: int) -> Seq<char> {
    let mag = if s < 0 {
        -s
    } else {
        s
    };
    let h = mag / 3600;
    let m = (mag / 60) % 60;
    let sec = mag % 60;
    if s >= 3600 {
        dec_u(h) + "h "@ + dec_u(m) + "m "@ + dec_u(sec) + "s"@
    } else if s >= 60 {
        dec_u(m) + "m "@ + dec_u(sec) + "s"@
    } else if s >= 0 {
        dec_u(sec) + "s"@
    } else {
        dec_i(-sec) + "s"@
    }
}

/// Renders a span of seconds as hours, minutes and seconds.
pub fn format_duration(seconds: i64) -> (r: String)
    ensures
        r@ == duration_str(seconds as int),
{
    let mag: u64 = if seconds >= 0 {
        seconds as u64
    } else {
        ((-(seconds + 1)) as u64) + 1
    };
    proof {
        assert(mag as int == if seconds < 0 {
            -(seconds as int)
        } else {
            seconds as int
        });
    }
    let h: u64 = mag / 3600;
    let m: u64 = (mag / 60) % 60;
    let sec: u64 = mag % 60;
    if seconds >= 3600 {
        let mut r = u64_to_string(h);
        r.append("h ");
        let ms = u64_to_string(m);
        r.append(ms.as_str());
        r.append("m ");
        let ss = u64_to_string(sec);
        r.append(ss.as_str());
        r.append("s");
        r
    } else if seconds >= 60 {
        let mut r = u64_to_string(m);
        r.append("m ");
        let ss = u64_to_string(sec);
        r.append(ss.as_str());
        r.append("s");
        r
    } else if seconds >= 0 {
        let mut r = u64_to_string(sec);
        r.append("s");
        r
    } else {
        let signed: i64 = -(sec as i64);
        let mut r = int_to_string(signed);
        r.append("s");
        r
    }
}


// ---------------------------------------------------------------------------
// Base64 and URLs
// ---------------------------------------------------------------------------

/// Standard (padded) base64 encoding of a byte string.
pub uninterp spec fn b64std_of(b: Seq<u8>) -> Seq<char>;

/// Whether a string parses as a URL.
pub uninterp spec fn url_parses(s: Seq<char>) -> bool;

/// The host component of a string that parses as a URL, if it has one.
pub uninterp spec fn url_host_of(s: Seq<char>) -> Option<Seq<char>>;

#[verifier::external_type_specification]
#[verifier::external_body]
pub struct ExDecodeError(base64::DecodeError);

/// Relies on `base64::engine::general_purpose::STANDARD.encode`: the
/// canonical padded base64 encoding of the input bytes.
#[verifier::external_body]
pub fn encode_base64(data: &[u8]) -> (r: String)
    ensures
        r@ == b64std_of(data@),
{
    base64::engine::general_purpose::STANDARD.encode(data)
}

/// Relies on `base64::engine::general_purpose::STANDARD.decode`: with this
/// engine decoding requires canonical padding and no trailing bits, so it
/// succeeds exactly on the range of the encoding, and the preimage is
/// unique.
#[verifier::external_body]
pub fn decode_base64(encoded: &str) -> (r: Result<Vec<u8>, base64::DecodeError>)
    ensures
        r is Ok ==> encoded@ == b64std_of(r->Ok_0@) && (forall|u: Seq<u8>|
            encoded@ == b64std_of(u) ==> u == r->Ok_0@),
        r is Err ==> (forall|u: Seq<u8>| encoded@ != b64std_of(u)),
{
    base64::engine::general_purpose::STANDARD.decode(encoded)
}

/// Relies on `url::Url::parse`: success is a pure function of the input
/// string.
#[verifier::external_body]
pub fn is_valid_url(url_str: &str) -> (r: bool)
    ensures
        r == url_parses(url_str@),
{
    url::Url::parse(url_str).is_ok()
}

/// Relies on `url::Url::parse` and `Url::host_str`: the host component, a
/// pure function of the input string, absent when the string does not parse
/// or its URL has no host.
#[verifier::external_body]
pub fn extract_domain(url_str: &str) -> (r: Option<String>)
    ensures
        r is Some <==> url_host_of(url_str@) is Some,
        r is Some ==> r->0@ == url_host_of(url_str@)->0,
{
    url::Url::parse(url_str).ok().and_then(|url| url.host_str().map(|s| s.to_string()))
}

// ---------------------------------------------------------------------------
// Relative time
// ---------------------------------------------------------------------------

/// One coarse unit of elapsed time with an English plural.
pub open spec fn ago_str(n: int, unit: Seq<char>) -> Seq<char> {
    if n == 1 {
        dec_u(n) + " "@ + unit + " ago"@
    } else {
        dec_u(n) + " "@ + unit + "s ago"@
    }
}

/// The relative-time phrase for an event `then`, seen from `now` (both in
/// seconds since the epoch): the coarsest unit that has elapsed at least
/// once, years counted as 365 days and months as 30; anything under a
/// minute, the future included, is "just now".
pub open spec fn time_ago_str(then: int, now: int) -> Seq<char> {
    let dur = now - then;
    let days = dur / 86400;
    if days > 365 {
        ago_str(days / 365, "year"@)
    } else if days > 30 {
        ago_str(days / 30, "month"@)
    } else if days > 0 {
        ago_str(days, "day"@)
    } else if dur / 3600 > 0 {
        ago_str(dur / 3600, "hour"@)
    } else if dur / 60 > 0 {
        ago_str(dur / 60, "minute"@)
    } else {
        "just now"@
    }
}

fn ago_part(n: u64, unit: &str) -> (r: String)
    ensures
        r@ == ago_str(n as int, unit@),
{
    let mut r = u64_to_string(n);
    r.append(" ");
    r.append(unit);
    if n != 1 {
        r.append("s");
    }
    r.append(" ago");
    proof {
        reveal_strlit(" ");
        reveal_strlit("s");
        reveal_strlit(" ago");
        reveal_strlit("s ago");
        if n != 1 {
            assert(r@ =~= dec_u(n as int) + " "@ + unit@ + "s ago"@);
        } else {
            assert(r@ =~= dec_u(n as int) + " "@ + unit@ + " ago"@);
        }
    }
    r
}

/// Phrases how long ago the instant `then` (seconds since the epoch) lies
/// before `now`.
pub fn time_ago_at(then: i64, now: i64) -> (r: String)
    requires
        now - then <= i64::MAX,
    ensures
        r@ == time_ago_str(then as int, now as int),
{
    if now <= then {
        proof {
            vstd::arithmetic::div_mod::lemma_div_is_ordered(now - then, 0, 86400);
            vstd::arithmetic::div_mod::lemma_div_is_ordered(now - then, 0, 3600);
            vstd::arithmetic::div_mod::lemma_div_is_ordered(now - then, 0, 60);
        }
        return "just now".to_owned();
    }
    let dur: u64 = (now - then) as u64;
    let days: u64 = dur / 86400;
    if days > 365 {
        ago_part(days / 365, "year")
    } else if days > 30 {
        ago_part(days / 30, "month")
    } else if days > 0 {
        ago_part(days, "day")
    } else if dur / 3600 > 0 {
        ago_part(dur / 3600, "hour")
    } else if dur / 60 > 0 {
        ago_part(dur / 60, "minute")
    } else {
        "just now".to_owned()
    }
}


// ---------------------------------------------------------------------------
// Query strings
// ---------------------------------------------------------------------------

/// Percent-decoding of a query component, as `urlencoding::decode` computes
/// it; absent when the decoded bytes are not valid UTF-8.
pub uninterp spec fn pct_decode_of(s: Seq<char>) -> Option<Seq<char>>;

/// Relies on `urlencoding::decode`: a pure function of the input, failing
/// exactly when the decoded bytes are not valid UTF-8.
#[verifier::external_body]
fn percent_decode(s: &str) -> (r: Option<String>)
    ensures
        r is Some <==> pct_decode_of(s@) is Some,
        r is Some ==> r->0@ == pct_decode_of(s@)->0,
{
    urlencoding::decode(s).ok().map(|c| c.into_owned())
}

/// The text before the first `sep`, and what follows that separator (absent
/// when the string has none).
pub open spec fn split_first(s: Seq<char>, sep: char) -> (Seq<char>, Option<Seq<char>>)
    decreases s.len(),
{
    if s.len() == 0 {
        (Seq::empty(), None)
    } else if s[0] == sep {
        (Seq::empty(), Some(s.skip(1)))
    } else {
        let p = split_first(s.skip(1), sep);
        (seq![s[0]] + p.0, p.1)
    }
}

proof fn lemma_split_first_rest(s: Seq<char>, sep: char)
    ensures
        split_first(s, sep).1 is Some ==> split_first(s, sep).1->0.len() < s.len(),
    decreases s.len(),
{
    if s.len() > 0 && s[0] != sep {
        lemma_split_first_rest(s.skip(1), sep);
    }
}

/// Characterizes `split_first` by the position `k` of the first separator
/// (`k == s.len()` when there is none).
proof fn lemma_split_first_at(s: Seq<char>, sep: char, k: int)
    requires
        0 <= k <= s.len(),
        forall|t: int| 0 <= t < k ==> s[t] != sep,
        k < s.len() ==> s[k] == sep,
    ensures
        split_first(s, sep).0 == s.subrange(0, k),
        k < s.len() ==> split_first(s, sep).1 == Some(s.skip(k + 1)),
        k == s.len() ==> split_first(s, sep).1 is None,
    decreases s.len(),
{
    if s.len() == 0 {
        assert(s.subrange(0, 0) =~= Seq::<char>::empty());
    } else if k == 0 {
        assert(s[0] == sep);
        assert(s.subrange(0, 0) =~= Seq::<char>::empty());
    } else {
        assert(s[0] != sep);
        assert(forall|t: int| 0 <= t < k - 1 ==> s.skip(1)[t] == s[t + 1] && s[t + 1] != sep);
        if k < s.len() {
            assert(s.skip(1)[k - 1] == s[k as int]);
        }
        lemma_split_first_at(s.skip(1), sep, k - 1);
        assert(s.skip(1).subrange(0, k - 1) =~= s.subrange(1, k));
        assert(seq![s[0]] + s.subrange(1, k) =~= s.subrange(0, k));
        if k < s.len() {
            assert(s.skip(1).skip(k) =~= s.skip(k + 1));
        }
    }
}

/// One `key=value` pair of a query segment: the text before the first `=`
/// and the text after it (empty when the segment has no `=`).
pub open spec fn kv_of_segment(seg: Seq<char>) -> (Seq<char>, Seq<char>) {
    let p = split_first(seg, '=');
    (
        p.0,
        match p.1 {
            Some(v) => v,
            None => Seq::empty(),
        },
    )
}

/// The raw pairs of a query string: segments split on `&`, each divided at
/// its first `=`.
pub open spec fn query_pairs(s: Seq<char>) -> Seq<(Seq<char>, Seq<char>)>
    decreases s.len(),
    via query_pairs_decreases
{
    let p = split_first(s, '&');
    match p.1 {
        None => seq![kv_of_segment(p.0)],
        Some(rest) => seq![kv_of_segment(p.0)] + query_pairs(rest),
    }
}

#[via_fn]
proof fn query_pairs_decreases(s: Seq<char>) {
    lemma_split_first_rest(s, '&');
}

/// The pairs with both halves percent-decoded; a pair either of whose
/// halves fails to decode is dropped.
pub open spec fn decoded_pairs(ps: Seq<(Seq<char>, Seq<char>)>) -> Seq<(Seq<char>, Seq<char>)>
    decreases ps.len(),
{
    if ps.len() == 0 {
        Seq::empty()
    } else {
        let rest = decoded_pairs(ps.skip(1));
        match (pct_decode_of(ps[0].0), pct_decode_of(ps[0].1)) {
            (Some(k), Some(v)) => seq![(k, v)] + rest,
            _ => rest,
        }
    }
}

/// Splits a query string on `&` into `key=value` pairs, percent-decoding
/// both halves; a segment without `=` gets an empty value, and a pair that
/// fails to decode is dropped. The pairs come back in order, duplicates
/// included.
pub fn parse_query_string(query: &str) -> (r: Vec<(String, String)>)
    ensures
        r@.map_values(|p: (String, String)| (p.0@, p.1@)) == decoded_pairs(query_pairs(query@)),
{
    let n = query.unicode_len();
    let mut out: Vec<(String, String)> = Vec::new();
    let mut i: usize = 0;
    proof {
        assert(query@.skip(0) =~= query@);
        assert(out@.map_values(|p: (String, String)| (p.0@, p.1@)) =~= Seq::<(
            Seq<char>,
            Seq<char>,
        )>::empty());
    }
    loop
        invariant
            0 <= i <= n,
            n == query@.len(),
            decoded_pairs(query_pairs(query@)) == out@.map_values(
                |p: (String, String)| (p.0@, p.1@),
            ) + decoded_pairs(query_pairs(query@.skip(i as int))),
        decreases n - i,
    {
        let ghost suf = query@.skip(i as int);
        let mut j: usize = i;
        while j < n && query.get_char(j) != '&'
            invariant
                i <= j <= n,
                n == query@.len(),
                forall|t: int| i <= t < j ==> query@[t] != '&',
            decreases n - j,
        {
            j += 1;
        }
        let mut e: usize = i;
        while e < j && query.get_char(e) != '='
            invariant
                i <= e <= j <= n,
                n == query@.len(),
                forall|t: int| i <= t < e ==> query@[t] != '=',
            decreases j - e,
        {
            e += 1;
        }
        let ghost seg = query@.subrange(i as int, j as int);
        proof {
            assert(forall|t: int| 0 <= t < suf.len() ==> suf[t] == query@[i + t]);
            lemma_split_first_at(suf, '&', j - i);
            assert(suf.subrange(0, j - i) =~= seg);
            assert(forall|t: int| 0 <= t < seg.len() ==> seg[t] == query@[i + t]);
            lemma_split_first_at(seg, '=', e - i);
            assert(seg.subrange(0, e - i) =~= query@.subrange(i as int, e as int));
            if e < j {
                assert(seg.skip(e - i + 1) =~= query@.subrange(e + 1, j as int));
            }
        }
        let key_s = query.substring_char(i, e);
        let val_s = if e < j {
            query.substring_char(e + 1, j)
        } else {
            ""
        };
        proof {
            reveal_strlit("");
            assert(kv_of_segment(seg) == (key_s@, val_s@));
        }
        let dk = percent_decode(key_s);
        let dv = percent_decode(val_s);
        let ghost pre = out@;
        match (dk, dv) {
            (Some(k), Some(v)) => {
                out.push((k, v));
            },
            _ => {},
        }
        proof {
            let qp = query_pairs(suf);
            assert(qp[0] == kv_of_segment(seg));
            if j < n {
                assert(qp == seq![kv_of_segment(seg)] + query_pairs(suf.skip(j - i + 1)));
                assert(suf.skip(j - i + 1) =~= query@.skip(j + 1));
                assert(qp.skip(1) =~= query_pairs(query@.skip(j + 1)));
            } else {
                assert(qp == seq![kv_of_segment(seg)]);
                assert(qp.skip(1) =~= Seq::<(Seq<char>, Seq<char>)>::empty());
                assert(decoded_pairs(qp.skip(1)) =~= Seq::<(Seq<char>, Seq<char>)>::empty());
            }
            let f = |p: (String, String)| (p.0@, p.1@);
            match (pct_decode_of(key_s@), pct_decode_of(val_s@)) {
                (Some(dk0), Some(dv0)) => {
                    assert(out@.map_values(f) =~= pre.map_values(f).push((dk0, dv0)));
                    assert(pre.map_values(f).push((dk0, dv0)) =~= pre.map_values(f) + seq![
                        (dk0, dv0),
                    ]);
                    assert(decoded_pairs(qp) == seq![(dk0, dv0)] + decoded_pairs(qp.skip(1)));
                    assert(pre.map_values(f) + (seq![(dk0, dv0)] + decoded_pairs(qp.skip(1))) =~= (
                    pre.map_values(f) + seq![(dk0, dv0)]) + decoded_pairs(qp.skip(1)));
                },
                _ => {
                    assert(out@.map_values(f) == pre.map_values(f));
                    assert(decoded_pairs(qp) == decoded_pairs(qp.skip(1)));
                },
            }
        }
        if j == n {
            return out;
        }
        i = j + 1;
    }
}


} // verus!
