//! Claim sets carried by the two token kinds, their canonical JSON rendering,
//! and strict parsers proved to be exact inverses of that rendering.
//!
//! An access-claims object is rendered as
//! `{"sub":S,"user_id":U,"email":E,"role":R,"exp":N,"iat":N,"jti":J}` and a
//! refresh-claims object as `{"sub":S,"user_id":U,"exp":N,"iat":N,"jti":J}`,
//! with quoted strings escaped as in [`crate::text`] and integers in
//! canonical decimal. The two shapes differ in their required fields, so
//! neither parser ever accepts a rendering of the other shape.

use vstd::prelude::*;

use crate::text::{dec_i, esc, int_to_string, append_escaped};
use crate::wire::{
    eat, eat_at, lemma_eat_complete, lemma_eat_sound, lemma_esc_quote_unique,
    lemma_read_int_complete, lemma_read_int_sound, lemma_read_str_complete, lemma_read_str_sound,
    read_int, read_int_at, read_str, read_str_at,
};

verus! {

/// Claims embedded in an access token: the identity snapshot, the validity
/// window, and a unique token id.
#[derive(Clone, Debug)]
pub struct Claims {
    pub sub: String,
    pub user_id: String,
    pub email: String,
    pub role: String,
    pub exp: i64,
    pub iat: i64,
    pub jti: String,
}

/// Mathematical image of [`Claims`].
pub ghost struct ClaimsV {
    pub sub: Seq<char>,
    pub user_id: Seq<char>,
    pub email: Seq<char>,
    pub role: Seq<char>,
    pub exp: int,
    pub iat: int,
    pub jti: Seq<char>,
}

impl View for Claims {
    type V = ClaimsV;

    open spec fn view(&self) -> ClaimsV {
        ClaimsV {
            sub: self.sub@,
            user_id: self.user_id@,
            email: self.email@,
            role: self.role@,
            exp: self.exp as int,
            iat: self.iat as int,
            jti: self.jti@,
        }
    }
}

/// Claims embedded in a refresh token: identity and validity window only.
#[derive(Clone, Debug)]
pub struct RefreshClaims {
    pub sub: String,
    pub user_id: String,
    pub exp: i64,
    pub iat: i64,
    pub jti: String,
}

/// Mathematical image of [`RefreshClaims`].
pub ghost struct RefreshClaimsV {
    pub sub: Seq<char>,
    pub user_id: Seq<char>,
    pub exp: int,
    pub iat: int,
    pub jti: Seq<char>,
}

impl View for RefreshClaims {
    type V = RefreshClaimsV;

    open spec fn view(&self) -> RefreshClaimsV {
        RefreshClaimsV {
            sub: self.sub@,
            user_id: self.user_id@,
            exp: self.exp as int,
            iat: self.iat as int,
            jti: self.jti@,
        }
    }
}

/// The integer fields fit in a 64-bit signed integer.
pub open spec fn claims_ints_fit(c: ClaimsV) -> bool {
    &&& i64::MIN <= c.exp <= i64::MAX
    &&& i64::MIN <= c.iat <= i64::MAX
}

/// The integer fields fit in a 64-bit signed integer.
pub open spec fn refresh_ints_fit(c: RefreshClaimsV) -> bool {
    &&& i64::MIN <= c.exp <= i64::MAX
    &&& i64::MIN <= c.iat <= i64::MAX
}

// ---------------------------------------------------------------------------
// The canonical rendering, written in the order the parser consumes it
// ---------------------------------------------------------------------------

pub open spec fn lit_sub() -> Seq<char> {
    "{\"sub\":\""@
}

pub open spec fn lit_uid() -> Seq<char> {
    ",\"user_id\":\""@
}

pub open spec fn lit_email() -> Seq<char> {
    ",\"email\":\""@
}

pub open spec fn lit_role() -> Seq<char> {
    ",\"role\":\""@
}

pub open spec fn lit_exp() -> Seq<char> {
    ",\"exp\":"@
}

pub open spec fn lit_iat() -> Seq<char> {
    ",\"iat\":"@
}

pub open spec fn lit_jti() -> Seq<char> {
    ",\"jti\":\""@
}

pub open spec fn lit_end() -> Seq<char> {
    "}"@
}

pub open spec fn a_after_jti(c: ClaimsV) -> Seq<char> {
    esc(c.jti) + seq!['"'] + lit_end()
}

pub open spec fn a_after_iat(c: ClaimsV) -> Seq<char> {
    dec_i(c.iat) + (lit_jti() + a_after_jti(c))
}

pub open spec fn a_after_exp(c: ClaimsV) -> Seq<char> {
    dec_i(c.exp) + (lit_iat() + a_after_iat(c))
}

pub open spec fn a_after_role(c: ClaimsV) -> Seq<char> {
    esc(c.role) + seq!['"'] + (lit_exp() + a_after_exp(c))
}

pub open spec fn a_after_email(c: ClaimsV) -> Seq<char> {
    esc(c.email) + seq!['"'] + (lit_role() + a_after_role(c))
}

pub open spec fn a_after_uid(c: ClaimsV) -> Seq<char> {
    esc(c.user_id) + seq!['"'] + (lit_email() + a_after_email(c))
}

pub open spec fn a_after_sub(c: ClaimsV) -> Seq<char> {
    esc(c.sub) + seq!['"'] + (lit_uid() + a_after_uid(c))
}

/// Canonical JSON rendering of an access-claims object.
pub open spec fn access_json(c: ClaimsV) -> Seq<char> {
    lit_sub() + a_after_sub(c)
}

pub open spec fn r_after_jti(c: RefreshClaimsV) -> Seq<char> {
    esc(c.jti) + seq!['"'] + lit_end()
}

pub open spec fn r_after_iat(c: RefreshClaimsV) -> Seq<char> {
    dec_i(c.iat) + (lit_jti() + r_after_jti(c))
}

pub open spec fn r_after_exp(c: RefreshClaimsV) -> Seq<char> {
    dec_i(c.exp) + (lit_iat() + r_after_iat(c))
}

pub open spec fn r_after_uid(c: RefreshClaimsV) -> Seq<char> {
    esc(c.user_id) + seq!['"'] + (lit_exp() + r_after_exp(c))
}

pub open spec fn r_after_sub(c: RefreshClaimsV) -> Seq<char> {
    esc(c.sub) + seq!['"'] + (lit_uid() + r_after_uid(c))
}

/// Canonical JSON rendering of a refresh-claims object.
pub open spec fn refresh_json(c: RefreshClaimsV) -> Seq<char> {
    lit_sub() + r_after_sub(c)
}

// ---------------------------------------------------------------------------
// Serializers
// ---------------------------------------------------------------------------

/// Renders access claims in their canonical JSON form.
#[verifier::rlimit(100)]
pub fn access_json_str(c: &Claims) -> (r: String)
    ensures
        r@ == access_json(c@),
{
    let mut out = String::new();
    out.append("{\"sub\":\"");
    append_escaped(&mut out, c.sub.as_str());
    out.append("\"");
    out.append(",\"user_id\":\"");
    append_escaped(&mut out, c.user_id.as_str());
    out.append("\"");
    out.append(",\"email\":\"");
    append_escaped(&mut out, c.email.as_str());
    out.append("\"");
    out.append(",\"role\":\"");
    append_escaped(&mut out, c.role.as_str());
    out.append("\"");
    out.append(",\"exp\":");
    let exp_s = int_to_string(c.exp);
    out.append(exp_s.as_str());
    out.append(",\"iat\":");
    let iat_s = int_to_string(c.iat);
    out.append(iat_s.as_str());
    out.append(",\"jti\":\"");
    append_escaped(&mut out, c.jti.as_str());
    out.append("\"");
    out.append("}");
    proof {
        reveal_strlit("\"");
        assert("\""@ =~= seq!['"']);
        assert(out@ =~= access_json(c@));
    }
    out
}

/// Renders refresh claims in their canonical JSON form.
#[verifier::rlimit(100)]
pub fn refresh_json_str(c: &RefreshClaims) -> (r: String)
    ensures
        r@ == refresh_json(c@),
{
    let mut out = String::new();
    out.append("{\"sub\":\"");
    append_escaped(&mut out, c.sub.as_str());
    out.append("\"");
    out.append(",\"user_id\":\"");
    append_escaped(&mut out, c.user_id.as_str());
    out.append("\"");
    out.append(",\"exp\":");
    let exp_s = int_to_string(c.exp);
    out.append(exp_s.as_str());
    out.append(",\"iat\":");
    let iat_s = int_to_string(c.iat);
    out.append(iat_s.as_str());
    out.append(",\"jti\":\"");
    append_escaped(&mut out, c.jti.as_str());
    out.append("\"");
    out.append("}");
    proof {
        reveal_strlit("\"");
        assert("\""@ =~= seq!['"']);
        assert(out@ =~= refresh_json(c@));
    }
    out
}

// ---------------------------------------------------------------------------
// Parsers (specification level)
// ---------------------------------------------------------------------------

/// Strict parser for the canonical access-claims rendering: it accepts
/// exactly the strings `access_json` produces and nothing else.
pub open spec fn parse_access(s: Seq<char>) -> Option<ClaimsV> {
    match eat(s, lit_sub()) {
        None => None,
        Some(s1) => match read_str(s1) {
            None => None,
            Some(p_sub) => match eat(p_sub.1, lit_uid()) {
                None => None,
                Some(s2) => match read_str(s2) {
                    None => None,
                    Some(p_uid) => match eat(p_uid.1, lit_email()) {
                        None => None,
                        Some(s3) => match read_str(s3) {
                            None => None,
                            Some(p_email) => match eat(p_email.1, lit_role()) {
                                None => None,
                                Some(s4) => match read_str(s4) {
                                    None => None,
                                    Some(p_role) => match eat(p_role.1, lit_exp()) {
                                        None => None,
                                        Some(s5) => match read_int(s5) {
                                            None => None,
                                            Some(p_exp) => match eat(p_exp.1, lit_iat()) {
                                                None => None,
                                                Some(s6) => match read_int(s6) {
                                                    None => None,
                                                    Some(p_iat) => match eat(p_iat.1, lit_jti()) {
                                                        None => None,
                                                        Some(s7) => match read_str(s7) {
                                                            None => None,
                                                            Some(p_jti) => match eat(
                                                                p_jti.1,
                                                                lit_end(),
                                                            ) {
                                                                None => None,
                                                                Some(s8) => if s8.len() == 0 {
                                                                    Some(
                                                                        ClaimsV {
                                                                            sub: p_sub.0,
                                                                            user_id: p_uid.0,
                                                                            email: p_email.0,
                                                                            role: p_role.0,
                                                                            exp: p_exp.0,
                                                                            iat: p_iat.0,
                                                                            jti: p_jti.0,
                                                                        },
                                                                    )
                                                                } else {
                                                                    None
                                                                },
                                                            },
                                                        },
                                                    },
                                                },
                                            },
                                        },
                                    },
                                },
                            },
                        },
                    },
                },
            },
        },
    }
}

/// Strict parser for the canonical refresh-claims rendering.
pub open spec fn parse_refresh(s: Seq<char>) -> Option<RefreshClaimsV> {
    match eat(s, lit_sub()) {
        None => None,
        Some(s1) => match read_str(s1) {
            None => None,
            Some(p_sub) => match eat(p_sub.1, lit_uid()) {
                None => None,
                Some(s2) => match read_str(s2) {
                    None => None,
                    Some(p_uid) => match eat(p_uid.1, lit_exp()) {
                        None => None,
                        Some(s5) => match read_int(s5) {
                            None => None,
                            Some(p_exp) => match eat(p_exp.1, lit_iat()) {
                                None => None,
                                Some(s6) => match read_int(s6) {
                                    None => None,
                                    Some(p_iat) => match eat(p_iat.1, lit_jti()) {
                                        None => None,
                                        Some(s7) => match read_str(s7) {
                                            None => None,
                                            Some(p_jti) => match eat(p_jti.1, lit_end()) {
                                                None => None,
                                                Some(s8) => if s8.len() == 0 {
                                                    Some(
                                                        RefreshClaimsV {
                                                            sub: p_sub.0,
                                                            user_id: p_uid.0,
                                                            exp: p_exp.0,
                                                            iat: p_iat.0,
                                                            jti: p_jti.0,
                                                        },
                                                    )
                                                } else {
                                                    None
                                                },
                                            },
                                        },
                                    },
                                },
                            },
                        },
                    },
                },
            },
        },
    }
}

// ---------------------------------------------------------------------------
// Inversion proofs
// ---------------------------------------------------------------------------

proof fn lemma_lit_first_chars()
    ensures
        lit_iat()[0] == ',',
        lit_jti()[0] == ',',
        lit_iat().len() == 7,
        lit_jti().len() == 8,
        lit_email()[3] == 'm',
        lit_exp()[3] == 'x',
        lit_email().len() == 10,
        lit_exp().len() == 7,
{
    reveal_strlit(",\"iat\":");
    reveal_strlit(",\"jti\":\"");
    reveal_strlit(",\"email\":\"");
    reveal_strlit(",\"exp\":");
}

/// Parsing the rendering of access claims gives those claims back.
pub proof fn lemma_parse_access_complete(c: ClaimsV)
    requires
        claims_ints_fit(c),
    ensures
        parse_access(access_json(c)) == Some(c),
{
    lemma_lit_first_chars();
    lemma_eat_complete(lit_sub(), a_after_sub(c));
    lemma_read_str_complete(c.sub, lit_uid() + a_after_uid(c));
    lemma_eat_complete(lit_uid(), a_after_uid(c));
    lemma_read_str_complete(c.user_id, lit_email() + a_after_email(c));
    lemma_eat_complete(lit_email(), a_after_email(c));
    lemma_read_str_complete(c.email, lit_role() + a_after_role(c));
    lemma_eat_complete(lit_role(), a_after_role(c));
    lemma_read_str_complete(c.role, lit_exp() + a_after_exp(c));
    lemma_eat_complete(lit_exp(), a_after_exp(c));
    assert((lit_iat() + a_after_iat(c))[0] == ',');
    lemma_read_int_complete(c.exp, lit_iat() + a_after_iat(c));
    lemma_eat_complete(lit_iat(), a_after_iat(c));
    assert((lit_jti() + a_after_jti(c))[0] == ',');
    lemma_read_int_complete(c.iat, lit_jti() + a_after_jti(c));
    lemma_eat_complete(lit_jti(), a_after_jti(c));
    lemma_read_str_complete(c.jti, lit_end());
    assert(lit_end() + Seq::<char>::empty() =~= lit_end());
    lemma_eat_complete(lit_end(), Seq::<char>::empty());
}

/// Parsing the rendering of refresh claims gives those claims back.
pub proof fn lemma_parse_refresh_complete(c: RefreshClaimsV)
    requires
        refresh_ints_fit(c),
    ensures
        parse_refresh(refresh_json(c)) == Some(c),
{
    lemma_lit_first_chars();
    lemma_eat_complete(lit_sub(), r_after_sub(c));
    lemma_read_str_complete(c.sub, lit_uid() + r_after_uid(c));
    lemma_eat_complete(lit_uid(), r_after_uid(c));
    lemma_read_str_complete(c.user_id, lit_exp() + r_after_exp(c));
    lemma_eat_complete(lit_exp(), r_after_exp(c));
    assert((lit_iat() + r_after_iat(c))[0] == ',');
    lemma_read_int_complete(c.exp, lit_iat() + r_after_iat(c));
    lemma_eat_complete(lit_iat(), r_after_iat(c));
    assert((lit_jti() + r_after_jti(c))[0] == ',');
    lemma_read_int_complete(c.iat, lit_jti() + r_after_jti(c));
    lemma_eat_complete(lit_jti(), r_after_jti(c));
    lemma_read_str_complete(c.jti, lit_end());
    assert(lit_end() + Seq::<char>::empty() =~= lit_end());
    lemma_eat_complete(lit_end(), Seq::<char>::empty());
}

/// Whatever the access parser accepts is the rendering of what it returns.
pub proof fn lemma_parse_access_sound(s: Seq<char>)
    requires
        parse_access(s) is Some,
    ensures
        s == access_json(parse_access(s)->0),
        claims_ints_fit(parse_access(s)->0),
{
    let c = parse_access(s)->0;
    let s1 = eat(s, lit_sub())->0;
    lemma_eat_sound(s, lit_sub());
    lemma_read_str_sound(s1);
    let p_sub = read_str(s1)->0;
    let s2 = eat(p_sub.1, lit_uid())->0;
    lemma_eat_sound(p_sub.1, lit_uid());
    lemma_read_str_sound(s2);
    let p_uid = read_str(s2)->0;
    let s3 = eat(p_uid.1, lit_email())->0;
    lemma_eat_sound(p_uid.1, lit_email());
    lemma_read_str_sound(s3);
    let p_email = read_str(s3)->0;
    let s4 = eat(p_email.1, lit_role())->0;
    lemma_eat_sound(p_email.1, lit_role());
    lemma_read_str_sound(s4);
    let p_role = read_str(s4)->0;
    let s5 = eat(p_role.1, lit_exp())->0;
    lemma_eat_sound(p_role.1, lit_exp());
    lemma_read_int_sound(s5);
    let p_exp = read_int(s5)->0;
    let s6 = eat(p_exp.1, lit_iat())->0;
    lemma_eat_sound(p_exp.1, lit_iat());
    lemma_read_int_sound(s6);
    let p_iat = read_int(s6)->0;
    let s7 = eat(p_iat.1, lit_jti())->0;
    lemma_eat_sound(p_iat.1, lit_jti());
    lemma_read_str_sound(s7);
    let p_jti = read_str(s7)->0;
    let s8 = eat(p_jti.1, lit_end())->0;
    lemma_eat_sound(p_jti.1, lit_end());
    assert(s8.len() == 0);
    assert(p_jti.1 =~= lit_end() + s8);
    assert(p_jti.1 =~= lit_end());
    assert(s7 == a_after_jti(c));
    assert(s6 =~= dec_i(c.iat) + (lit_jti() + a_after_jti(c)));
    assert(s5 =~= dec_i(c.exp) + (lit_iat() + a_after_iat(c)));
    assert(s4 == a_after_role(c));
    assert(s3 == a_after_email(c));
    assert(s2 == a_after_uid(c));
    assert(s1 == a_after_sub(c));
    assert(s == access_json(c));
}

/// Whatever the refresh parser accepts is the rendering of what it returns.
pub proof fn lemma_parse_refresh_sound(s: Seq<char>)
    requires
        parse_refresh(s) is Some,
    ensures
        s == refresh_json(parse_refresh(s)->0),
        refresh_ints_fit(parse_refresh(s)->0),
{
    let c = parse_refresh(s)->0;
    let s1 = eat(s, lit_sub())->0;
    lemma_eat_sound(s, lit_sub());
    lemma_read_str_sound(s1);
    let p_sub = read_str(s1)->0;
    let s2 = eat(p_sub.1, lit_uid())->0;
    lemma_eat_sound(p_sub.1, lit_uid());
    lemma_read_str_sound(s2);
    let p_uid = read_str(s2)->0;
    let s5 = eat(p_uid.1, lit_exp())->0;
    lemma_eat_sound(p_uid.1, lit_exp());
    lemma_read_int_sound(s5);
    let p_exp = read_int(s5)->0;
    let s6 = eat(p_exp.1, lit_iat())->0;
    lemma_eat_sound(p_exp.1, lit_iat());
    lemma_read_int_sound(s6);
    let p_iat = read_int(s6)->0;
    let s7 = eat(p_iat.1, lit_jti())->0;
    lemma_eat_sound(p_iat.1, lit_jti());
    lemma_read_str_sound(s7);
    let p_jti = read_str(s7)->0;
    let s8 = eat(p_jti.1, lit_end())->0;
    lemma_eat_sound(p_jti.1, lit_end());
    assert(s8.len() == 0);
    assert(p_jti.1 =~= lit_end() + s8);
    assert(p_jti.1 =~= lit_end());
    assert(s7 == r_after_jti(c));
    assert(s6 =~= dec_i(c.iat) + (lit_jti() + r_after_jti(c)));
    assert(s5 =~= dec_i(c.exp) + (lit_iat() + r_after_iat(c)));
    assert(s2 == r_after_uid(c));
    assert(s1 == r_after_sub(c));
    assert(s == refresh_json(c));
}

/// No string is both an access-claims rendering and a refresh-claims
/// rendering: after the shared `sub` and `user_id` fields, one shape
/// requires an `email` key and the other an `exp` key.
pub proof fn lemma_access_refresh_disjoint(a: ClaimsV, r: RefreshClaimsV)
    ensures
        access_json(a) != refresh_json(r),
{
    if access_json(a) == refresh_json(r) {
        lemma_lit_first_chars();
        let n = lit_sub().len() as int;
        assert(a_after_sub(a) =~= access_json(a).skip(n));
        assert(r_after_sub(r) =~= refresh_json(r).skip(n));
        assert(a_after_sub(a) == r_after_sub(r));
        lemma_esc_quote_unique(
            a.sub,
            lit_uid() + a_after_uid(a),
            r.sub,
            lit_uid() + r_after_uid(r),
        );
        let m = lit_uid().len() as int;
        assert(a_after_uid(a) =~= (lit_uid() + a_after_uid(a)).skip(m));
        assert(r_after_uid(r) =~= (lit_uid() + r_after_uid(r)).skip(m));
        assert(a_after_uid(a) == r_after_uid(r));
        lemma_esc_quote_unique(
            a.user_id,
            lit_email() + a_after_email(a),
            r.user_id,
            lit_exp() + r_after_exp(r),
        );
        assert((lit_email() + a_after_email(a))[3] == 'm');
        assert((lit_exp() + r_after_exp(r))[3] == 'x');
        assert(false);
    }
}

// ---------------------------------------------------------------------------
// Parsers (executable)
// ---------------------------------------------------------------------------

/// Parses the canonical access-claims rendering; returns exactly what
/// [`parse_access`] accepts.
pub fn parse_access_str(s: &str) -> (r: Option<Claims>)
    ensures
        match r {
            Some(c) => parse_access(s@) == Some(c@),
            None => parse_access(s@) is None,
        },
{
    proof {
        assert(s@.skip(0) =~= s@);
    }
    let i1 = match eat_at(s, 0, "{\"sub\":\"") {
        Some(i) => i,
        None => {
            return None;
        },
    };
    let (sub, i2) = match read_str_at(s, i1) {
        Some(p) => p,
        None => {
            return None;
        },
    };
    let i3 = match eat_at(s, i2, ",\"user_id\":\"") {
        Some(i) => i,
        None => {
            return None;
        },
    };
    let (user_id, i4) = match read_str_at(s, i3) {
        Some(p) => p,
        None => {
            return None;
        },
    };
    let i5 = match eat_at(s, i4, ",\"email\":\"") {
        Some(i) => i,
        None => {
            return None;
        },
    };
    let (email, i6) = match read_str_at(s, i5) {
        Some(p) => p,
        None => {
            return None;
        },
    };
    let i7 = match eat_at(s, i6, ",\"role\":\"") {
        Some(i) => i,
        None => {
            return None;
        },
    };
    let (role, i8) = match read_str_at(s, i7) {
        Some(p) => p,
        None => {
            return None;
        },
    };
    let i9 = match eat_at(s, i8, ",\"exp\":") {
        Some(i) => i,
        None => {
            return None;
        },
    };
    let (exp, i10) = match read_int_at(s, i9) {
        Some(p) => p,
        None => {
            return None;
        },
    };
    let i11 = match eat_at(s, i10, ",\"iat\":") {
        Some(i) => i,
        None => {
            return None;
        },
    };
    let (iat, i12) = match read_int_at(s, i11) {
        Some(p) => p,
        None => {
            return None;
        },
    };
    let i13 = match eat_at(s, i12, ",\"jti\":\"") {
        Some(i) => i,
        None => {
            return None;
        },
    };
    let (jti, i14) = match read_str_at(s, i13) {
        Some(p) => p,
        None => {
            return None;
        },
    };
    let i15 = match eat_at(s, i14, "}") {
        Some(i) => i,
        None => {
            return None;
        },
    };
    if i15 != s.unicode_len() {
        proof {
            assert(s@.skip(i15 as int).len() != 0);
        }
        return None;
    }
    let c = Claims { sub, user_id, email, role, exp, iat, jti };
    proof {
        assert(s@.skip(i15 as int).len() == 0);
        assert(parse_access(s@) == Some(c@));
    }
    Some(c)
}

/// Parses the canonical refresh-claims rendering; returns exactly what
/// [`parse_refresh`] accepts.
pub fn parse_refresh_str(s: &str) -> (r: Option<RefreshClaims>)
    ensures
        match r {
            Some(c) => parse_refresh(s@) == Some(c@),
            None => parse_refresh(s@) is None,
        },
{
    proof {
        assert(s@.skip(0) =~= s@);
    }
    let i1 = match eat_at(s, 0, "{\"sub\":\"") {
        Some(i) => i,
        None => {
            return None;
        },
    };
    let (sub, i2) = match read_str_at(s, i1) {
        Some(p) => p,
        None => {
            return None;
        },
    };
    let i3 = match eat_at(s, i2, ",\"user_id\":\"") {
        Some(i) => i,
        None => {
            return None;
        },
    };
    let (user_id, i4) = match read_str_at(s, i3) {
        Some(p) => p,
        None => {
            return None;
        },
    };
    let i9 = match eat_at(s, i4, ",\"exp\":") {
        Some(i) => i,
        None => {
            return None;
        },
    };
    let (exp, i10) = match read_int_at(s, i9) {
        Some(p) => p,
        None => {
            return None;
        },
    };
    let i11 = match eat_at(s, i10, ",\"iat\":") {
        Some(i) => i,
        None => {
            return None;
        },
    };
    let (iat, i12) = match read_int_at(s, i11) {
        Some(p) => p,
        None => {
            return None;
        },
    };
    let i13 = match eat_at(s, i12, ",\"jti\":\"") {
        Some(i) => i,
        None => {
            return None;
        },
    };
    let (jti, i14) = match read_str_at(s, i13) {
        Some(p) => p,
        None => {
            return None;
        },
    };
    let i15 = match eat_at(s, i14, "}") {
        Some(i) => i,
        None => {
            return None;
        },
    };
    if i15 != s.unicode_len() {
        proof {
            assert(s@.skip(i15 as int).len() != 0);
        }
        return None;
    }
    let c = RefreshClaims { sub, user_id, exp, iat, jti };
    proof {
        assert(s@.skip(i15 as int).len() == 0);
        assert(parse_refresh(s@) == Some(c@));
    }
    Some(c)
}

} // verus!
