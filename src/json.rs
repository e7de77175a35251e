//! The compact JSON text that carries session claims inside a token, its
//! writer and its strict reader. The reader accepts exactly the texts that
//! the writer produces, which gives the codec its round trip.
use vstd::prelude::*;
use crate::claims::{ClaimsView, JwtClaims, UserData, UserView};
use crate::text::{
    chars_of, int_at, int_text, is_digit, json_string,
    lemma_nat_text, lemma_read_int, lemma_read_nat, lemma_read_string, lemma_read_string_sound,
    nat_at, nat_text, read_int, read_int_spec, read_nat, read_nat_spec, read_string,
    read_string_spec, text_at, write_int, write_nat, write_string,
};

verus! {

/// `{"user_data":{"id":..,"username":..,...},"exp":..}`: the claims as a JSON
/// object, its keys in a fixed order and without white space.
pub open spec fn claims_text(c: ClaimsView) -> Seq<char> {
    let u = c.user_data;
    "{\"user_data\":{\"id\":"@ + (int_text(u.id) + (",\"username\":"@ + (json_string(u.username)
        + (",\"password\":"@ + (json_string(u.password) + (",\"full_name\":"@ + (json_string(
        u.full_name,
    ) + (",\"address\":"@ + (json_string(u.address) + (",\"phone_number\":"@ + (json_string(
        u.phone_number,
    ) + (",\"role\":"@ + (json_string(u.role) + (",\"photo\":"@ + (json_string(u.photo) + (
    ",\"created_at\":"@ + (int_text(u.created_at) + (",\"updated_at\":"@ + (int_text(
        u.updated_at,
    ) + ("},\"exp\":"@ + (nat_text(c.exp) + "}"@)))))))))))))))))))))
}

/// The field values fit the integer types that carry them.
pub open spec fn claims_in_range(c: ClaimsView) -> bool {
    &&& i32::MIN <= c.user_data.id <= i32::MAX
    &&& i64::MIN <= c.user_data.created_at <= i64::MAX
    &&& i64::MIN <= c.user_data.updated_at <= i64::MAX
    &&& c.exp <= usize::MAX
}

pub open spec fn str_field(t: Seq<char>, p: int, key: Seq<char>) -> Option<(Seq<char>, int)> {
    if text_at(t, p, key) {
        read_string_spec(t, p + key.len())
    } else {
        None
    }
}

pub open spec fn int_field(t: Seq<char>, p: int, key: Seq<char>, lo: int, hi: int) -> Option<
    (int, int),
> {
    if text_at(t, p, key) {
        read_int_spec(t, p + key.len(), lo, hi)
    } else {
        None
    }
}

pub open spec fn nat_field(t: Seq<char>, p: int, key: Seq<char>, max: nat) -> Option<(nat, int)> {
    if text_at(t, p, key) {
        read_nat_spec(t, p + key.len(), max)
    } else {
        None
    }
}

/// The claims whose text `t` is, if any.
pub open spec fn claims_of_text(t: Seq<char>) -> Option<ClaimsView> {
    if exists|c: ClaimsView| claims_in_range(c) && #[trigger] claims_text(c) == t {
        Some(choose|c: ClaimsView| claims_in_range(c) && #[trigger] claims_text(c) == t)
    } else {
        None
    }
}

/// What the strict reader makes of a text, step by step.
#[verifier::opaque]
pub open spec fn read_claims_spec(t: Seq<char>) -> Option<ClaimsView> {
    match int_field(t, 0, "{\"user_data\":{\"id\":"@, i32::MIN as int, i32::MAX as int) {
        None => None,
        Some((id, q1)) => match str_field(t, q1, ",\"username\":"@) {
            None => None,
            Some((username, q2)) => match str_field(t, q2, ",\"password\":"@) {
                None => None,
                Some((password, q3)) => match str_field(t, q3, ",\"full_name\":"@) {
                    None => None,
                    Some((full_name, q4)) => match str_field(t, q4, ",\"address\":"@) {
                        None => None,
                        Some((address, q5)) => match str_field(t, q5, ",\"phone_number\":"@) {
                            None => None,
                            Some((phone_number, q6)) => match str_field(t, q6, ",\"role\":"@) {
                                None => None,
                                Some((role, q7)) => match str_field(t, q7, ",\"photo\":"@) {
                                    None => None,
                                    Some((photo, q8)) => match int_field(
                                        t,
                                        q8,
                                        ",\"created_at\":"@,
                                        i64::MIN as int,
                                        i64::MAX as int,
                                    ) {
                                        None => None,
                                        Some((created_at, q9)) => match int_field(
                                            t,
                                            q9,
                                            ",\"updated_at\":"@,
                                            i64::MIN as int,
                                            i64::MAX as int,
                                        ) {
                                            None => None,
                                            Some((updated_at, q10)) => match nat_field(
                                                t,
                                                q10,
                                                "},\"exp\":"@,
                                                usize::MAX as nat,
                                            ) {
                                                None => None,
                                                Some((exp, q11)) => if text_at(t, q11, "}"@)
                                                    && q11 + 1 == t.len() {
                                                    Some(
                                                        ClaimsView {
                                                            user_data: UserView {
                                                                id,
                                                                username,
                                                                password,
                                                                full_name,
                                                                address,
                                                                phone_number,
                                                                role,
                                                                photo,
                                                                created_at,
                                                                updated_at,
                                                            },
                                                            exp,
                                                        },
                                                    )
                                                } else {
                                                    None
                                                },
                                            },
                                        },
                                    },
                                },
                            },
                        },
                    },
                },
            },
        },
    }
}

fn int_string(n: i64) -> (r: String)
    ensures
        r@ == int_text(n as int),
{
    let mut out = String::new();
    write_int(&mut out, n);
    assert(out@ =~= int_text(n as int));
    out
}

fn nat_string(n: u64) -> (r: String)
    ensures
        r@ == nat_text(n as nat),
{
    let mut out = String::new();
    write_nat(&mut out, n);
    assert(out@ =~= nat_text(n as nat));
    out
}

fn quoted(s: &String) -> (r: String)
    ensures
        r@ == json_string(s@),
{
    let mut out = String::new();
    write_string(&mut out, s.as_str());
    assert(out@ =~= json_string(s@));
    out
}

/// The JSON text of the claims, as it is signed into a token.
pub fn claims_json(c: &JwtClaims) -> (r: String)
    ensures
        r@ == claims_text(c@),
{
    let u = &c.user_data;
    // Built from the last piece backwards, each piece put in front.
    let mut text = String::from_str("}");
    text = nat_string(c.exp as u64).concat(text.as_str());
    text = String::from_str("},\"exp\":").concat(text.as_str());
    text = int_string(u.updated_at).concat(text.as_str());
    text = String::from_str(",\"updated_at\":").concat(text.as_str());
    text = int_string(u.created_at).concat(text.as_str());
    text = String::from_str(",\"created_at\":").concat(text.as_str());
    text = quoted(&u.photo).concat(text.as_str());
    text = String::from_str(",\"photo\":").concat(text.as_str());
    text = quoted(&u.role).concat(text.as_str());
    text = String::from_str(",\"role\":").concat(text.as_str());
    text = quoted(&u.phone_number).concat(text.as_str());
    text = String::from_str(",\"phone_number\":").concat(text.as_str());
    text = quoted(&u.address).concat(text.as_str());
    text = String::from_str(",\"address\":").concat(text.as_str());
    text = quoted(&u.full_name).concat(text.as_str());
    text = String::from_str(",\"full_name\":").concat(text.as_str());
    text = quoted(&u.password).concat(text.as_str());
    text = String::from_str(",\"password\":").concat(text.as_str());
    text = quoted(&u.username).concat(text.as_str());
    text = String::from_str(",\"username\":").concat(text.as_str());
    text = int_string(u.id as i64).concat(text.as_str());
    text = String::from_str("{\"user_data\":{\"id\":").concat(text.as_str());
    text
}

/// Whether `key` stands in `t` at `p`; the position after it if so.
fn expect_key(t: &Vec<char>, p: usize, key: &str) -> (r: Option<usize>)
    ensures
        match r {
            Some(q) => text_at(t@, p as int, key@) && q == p + key@.len(),
            None => !text_at(t@, p as int, key@),
        },
{
    let k = key.unicode_len();
    let n = t.len();
    if p > n || k > n - p {
        return None;
    }
    let mut i: usize = 0;
    while i < k
        invariant
            k == key@.len(),
            n == t@.len(),
            p + k <= n,
            i <= k,
            forall|j: int| 0 <= j < i ==> t@[p + j] == key@[j],
        decreases k - i,
    {
        if t[p + i] != key.get_char(i) {
            assert(t@.subrange(p as int, p + k)[i as int] == t@[p + i]);
            return None;
        }
        i = i + 1;
    }
    assert(t@.subrange(p as int, p + k) =~= key@);
    Some(p + k)
}

fn str_field_exec(src: &str, t: &Vec<char>, p: usize, key: &str) -> (r: Option<(String, usize)>)
    requires
        t@ == src@,
    ensures
        match r {
            Some((s, q)) => str_field(t@, p as int, key@) == Some((s@, q as int)),
            None => str_field(t@, p as int, key@) is None,
        },
{
    match expect_key(t, p, key) {
        None => None,
        Some(q) => read_string(src, t, q),
    }
}

fn int_field_exec(t: &Vec<char>, p: usize, key: &str, lo: i64, hi: i64) -> (r: Option<
    (i64, usize),
>)
    requires
        lo < 0 <= hi,
    ensures
        match r {
            Some((v, q)) => int_field(t@, p as int, key@, lo as int, hi as int) == Some(
                (v as int, q as int),
            ),
            None => int_field(t@, p as int, key@, lo as int, hi as int) is None,
        },
{
    match expect_key(t, p, key) {
        None => None,
        Some(q) => read_int(t, q, lo, hi),
    }
}

fn scan_claims(src: &str) -> (r: Option<JwtClaims>)
    ensures
        match r {
            Some(c) => read_claims_spec(src@) == Some(c@),
            None => read_claims_spec(src@) is None,
        },
{
    reveal(read_claims_spec);
    let t = chars_of(src);
    let (id, q1) = match int_field_exec(&t, 0, "{\"user_data\":{\"id\":", i32::MIN as i64, i32::MAX as i64) {
        None => return None,
        Some(x) => x,
    };
    let (username, q2) = match str_field_exec(src, &t, q1, ",\"username\":") {
        None => return None,
        Some(x) => x,
    };
    let (password, q3) = match str_field_exec(src, &t, q2, ",\"password\":") {
        None => return None,
        Some(x) => x,
    };
    let (full_name, q4) = match str_field_exec(src, &t, q3, ",\"full_name\":") {
        None => return None,
        Some(x) => x,
    };
    let (address, q5) = match str_field_exec(src, &t, q4, ",\"address\":") {
        None => return None,
        Some(x) => x,
    };
    let (phone_number, q6) = match str_field_exec(src, &t, q5, ",\"phone_number\":") {
        None => return None,
        Some(x) => x,
    };
    let (role, q7) = match str_field_exec(src, &t, q6, ",\"role\":") {
        None => return None,
        Some(x) => x,
    };
    let (photo, q8) = match str_field_exec(src, &t, q7, ",\"photo\":") {
        None => return None,
        Some(x) => x,
    };
    let (created_at, q9) = match int_field_exec(&t, q8, ",\"created_at\":", i64::MIN, i64::MAX) {
        None => return None,
        Some(x) => x,
    };
    let (updated_at, q10) = match int_field_exec(&t, q9, ",\"updated_at\":", i64::MIN, i64::MAX) {
        None => return None,
        Some(x) => x,
    };
    let q11 = match expect_key(&t, q10, "},\"exp\":") {
        None => return None,
        Some(q) => q,
    };
    let (exp, q12) = match read_nat(&t, q11, usize::MAX as u64) {
        None => return None,
        Some(x) => x,
    };
    let end = match expect_key(&t, q12, "}") {
        None => return None,
        Some(q) => q,
    };
    proof {
    reveal_strlit("}");
    }
    if end != t.len() {
        return None;
    }
    Some(
        JwtClaims {
            user_data: UserData {
                id: id as i32,
                username,
                password,
                full_name,
                address,
                phone_number,
                role,
                photo,
                created_at,
                updated_at,
            },
            exp: exp as usize,
        },
    )
}

proof fn lemma_text_at_split(t: Seq<char>, p: int, a: Seq<char>, b: Seq<char>)
    requires
        text_at(t, p, a + b),
    ensures
        text_at(t, p, a),
        text_at(t, p + a.len(), b),
{
    let whole = t.subrange(p, p + a.len() + b.len());
    assert(whole == a + b);
    assert(t.subrange(p, p + a.len()) =~= whole.subrange(0, a.len() as int));
    assert(whole.subrange(0, a.len() as int) =~= a);
    assert(t.subrange(p + a.len(), p + a.len() + b.len()) =~= whole.subrange(
        a.len() as int,
        whole.len() as int,
    ));
    assert(whole.subrange(a.len() as int, whole.len() as int) =~= b);
}

proof fn lemma_text_at_join(t: Seq<char>, p: int, a: Seq<char>, b: Seq<char>)
    requires
        text_at(t, p, a),
        text_at(t, p + a.len(), b),
    ensures
        text_at(t, p, a + b),
{
    assert forall|j: int| 0 <= j < (a + b).len() implies t.subrange(p, p + (a + b).len())[j] == (a
        + b)[j] by {
        if j < a.len() {
            assert(t.subrange(p, p + a.len())[j] == a[j]);
        } else {
            assert(t.subrange(p + a.len(), p + a.len() + b.len())[j - a.len()] == b[j - a.len()]);
        }
    }
    assert(t.subrange(p, p + (a + b).len()) =~= a + b);
}

proof fn lemma_str_step(t: Seq<char>, p: int, key: Seq<char>, s: Seq<char>, rest: Seq<char>)
    requires
        text_at(t, p, key + (json_string(s) + rest)),
    ensures
        str_field(t, p, key) == Some((s, p + key.len() + json_string(s).len())),
        text_at(t, p + key.len() + json_string(s).len(), rest),
{
    lemma_text_at_split(t, p, key, json_string(s) + rest);
    lemma_text_at_split(t, p + key.len(), json_string(s), rest);
    lemma_read_string(t, p + key.len(), s);
}

proof fn lemma_int_step(
    t: Seq<char>,
    p: int,
    key: Seq<char>,
    n: int,
    rest: Seq<char>,
    lo: int,
    hi: int,
)
    requires
        lo < 0 <= hi,
        lo <= n <= hi,
        text_at(t, p, key + (int_text(n) + rest)),
        rest.len() > 0,
        !is_digit(rest[0]),
    ensures
        int_field(t, p, key, lo, hi) == Some((n, p + key.len() + int_text(n).len())),
        text_at(t, p + key.len() + int_text(n).len(), rest),
{
    lemma_text_at_split(t, p, key, int_text(n) + rest);
    lemma_text_at_split(t, p + key.len(), int_text(n), rest);
    let e = p + key.len() + int_text(n).len();
    assert(t[e] == t.subrange(e, e + rest.len())[0]);
    assert(int_at(t, p + key.len(), n, lo, hi));
    lemma_read_int(t, p + key.len(), n, lo, hi);
}

proof fn lemma_nat_step(t: Seq<char>, p: int, key: Seq<char>, n: nat, rest: Seq<char>, max: nat)
    requires
        n <= max,
        text_at(t, p, key + (nat_text(n) + rest)),
        rest.len() > 0,
        !is_digit(rest[0]),
    ensures
        nat_field(t, p, key, max) == Some((n, p + key.len() + nat_text(n).len())),
        text_at(t, p + key.len() + nat_text(n).len(), rest),
{
    lemma_text_at_split(t, p, key, nat_text(n) + rest);
    lemma_text_at_split(t, p + key.len(), nat_text(n), rest);
    let e = p + key.len() + nat_text(n).len();
    assert(t[e] == t.subrange(e, e + rest.len())[0]);
    assert(nat_at(t, p + key.len(), n, max));
    lemma_read_nat(t, p + key.len(), n, max);
}

proof fn lemma_str_step_back(t: Seq<char>, p: int, key: Seq<char>, rest: Seq<char>)
    requires
        str_field(t, p, key) is Some,
        text_at(t, str_field(t, p, key).unwrap().1, rest),
    ensures
        text_at(t, p, key + (json_string(str_field(t, p, key).unwrap().0) + rest)),
        str_field(t, p, key).unwrap().1 + rest.len() == t.len() ==> p + (key + (json_string(
            str_field(t, p, key).unwrap().0,
        ) + rest)).len() == t.len(),
{
    lemma_read_string_sound(t, p + key.len());
    let s = str_field(t, p, key).unwrap().0;
    lemma_text_at_join(t, p + key.len(), json_string(s), rest);
    lemma_text_at_join(t, p, key, json_string(s) + rest);
}

proof fn lemma_int_step_back(t: Seq<char>, p: int, key: Seq<char>, lo: int, hi: int, rest: Seq<char>)
    requires
        int_field(t, p, key, lo, hi) is Some,
        text_at(t, int_field(t, p, key, lo, hi).unwrap().1, rest),
    ensures
        text_at(t, p, key + (int_text(int_field(t, p, key, lo, hi).unwrap().0) + rest)),
        int_field(t, p, key, lo, hi).unwrap().1 + rest.len() == t.len() ==> p + (key + (int_text(
            int_field(t, p, key, lo, hi).unwrap().0,
        ) + rest)).len() == t.len(),
{
    let n = int_field(t, p, key, lo, hi).unwrap().0;
    assert(int_at(t, p + key.len(), n, lo, hi));
    lemma_text_at_join(t, p + key.len(), int_text(n), rest);
    lemma_text_at_join(t, p, key, int_text(n) + rest);
}

proof fn lemma_nat_step_back(t: Seq<char>, p: int, key: Seq<char>, max: nat, rest: Seq<char>)
    requires
        nat_field(t, p, key, max) is Some,
        text_at(t, nat_field(t, p, key, max).unwrap().1, rest),
    ensures
        text_at(t, p, key + (nat_text(nat_field(t, p, key, max).unwrap().0) + rest)),
        nat_field(t, p, key, max).unwrap().1 + rest.len() == t.len() ==> p + (key + (nat_text(
            nat_field(t, p, key, max).unwrap().0,
        ) + rest)).len() == t.len(),
{
    let n = nat_field(t, p, key, max).unwrap().0;
    assert(nat_at(t, p + key.len(), n, max));
    lemma_text_at_join(t, p + key.len(), nat_text(n), rest);
    lemma_text_at_join(t, p, key, nat_text(n) + rest);
}

proof fn lemma_read_claims_text(t: Seq<char>, v: ClaimsView)
    requires
        claims_in_range(v),
        text_at(t, 0, claims_text(v)),
        claims_text(v).len() == t.len(),
    ensures
        read_claims_spec(t) == Some(v),
{
    reveal(read_claims_spec);
    let u = v.user_data;
    reveal_strlit(",\"username\":");
    reveal_strlit(",\"updated_at\":");
    reveal_strlit("},\"exp\":");
    reveal_strlit("}");
    let r11 = "}"@;
    let r10 = "},\"exp\":"@ + (nat_text(v.exp) + r11);
    let r9 = ",\"updated_at\":"@ + (int_text(u.updated_at) + r10);
    let r8 = ",\"created_at\":"@ + (int_text(u.created_at) + r9);
    let r7 = ",\"photo\":"@ + (json_string(u.photo) + r8);
    let r6 = ",\"role\":"@ + (json_string(u.role) + r7);
    let r5 = ",\"phone_number\":"@ + (json_string(u.phone_number) + r6);
    let r4 = ",\"address\":"@ + (json_string(u.address) + r5);
    let r3 = ",\"full_name\":"@ + (json_string(u.full_name) + r4);
    let r2 = ",\"password\":"@ + (json_string(u.password) + r3);
    let r1 = ",\"username\":"@ + (json_string(u.username) + r2);
    let r0 = "{\"user_data\":{\"id\":"@ + (int_text(u.id) + r1);
    assert(r0 == claims_text(v));
    lemma_int_step(t, 0, "{\"user_data\":{\"id\":"@, u.id, r1, i32::MIN as int, i32::MAX as int);
    let q1 = ("{\"user_data\":{\"id\":"@.len() + int_text(u.id).len()) as int;
    lemma_str_step(t, q1, ",\"username\":"@, u.username, r2);
    let q2: int = q1 + ",\"username\":"@.len() + json_string(u.username).len();
    lemma_str_step(t, q2, ",\"password\":"@, u.password, r3);
    let q3: int = q2 + ",\"password\":"@.len() + json_string(u.password).len();
    lemma_str_step(t, q3, ",\"full_name\":"@, u.full_name, r4);
    let q4: int = q3 + ",\"full_name\":"@.len() + json_string(u.full_name).len();
    lemma_str_step(t, q4, ",\"address\":"@, u.address, r5);
    let q5: int = q4 + ",\"address\":"@.len() + json_string(u.address).len();
    lemma_str_step(t, q5, ",\"phone_number\":"@, u.phone_number, r6);
    let q6: int = q5 + ",\"phone_number\":"@.len() + json_string(u.phone_number).len();
    lemma_str_step(t, q6, ",\"role\":"@, u.role, r7);
    let q7: int = q6 + ",\"role\":"@.len() + json_string(u.role).len();
    lemma_str_step(t, q7, ",\"photo\":"@, u.photo, r8);
    let q8: int = q7 + ",\"photo\":"@.len() + json_string(u.photo).len();
    lemma_int_step(t, q8, ",\"created_at\":"@, u.created_at, r9, i64::MIN as int, i64::MAX as int);
    let q9: int = q8 + ",\"created_at\":"@.len() + int_text(u.created_at).len();
    lemma_int_step(t, q9, ",\"updated_at\":"@, u.updated_at, r10, i64::MIN as int, i64::MAX as int);
    let q10: int = q9 + ",\"updated_at\":"@.len() + int_text(u.updated_at).len();
    lemma_nat_step(t, q10, "},\"exp\":"@, v.exp, r11, usize::MAX as nat);
    let q11: int = q10 + "},\"exp\":"@.len() + nat_text(v.exp).len();
    assert(t.subrange(q11, q11 + 1) == "}"@);
    assert(q11 + 1 == r0.len());
}

/// The reader gives back every claims value from its text.
pub proof fn lemma_claims_round_trip(v: ClaimsView)
    requires
        claims_in_range(v),
    ensures
        read_claims_spec(claims_text(v)) == Some(v),
{
    let t = claims_text(v);
    assert(t.subrange(0, t.len() as int) =~= t);
    lemma_read_claims_text(t, v);
}

/// A text that the reader accepts is the text of what it reads.
#[verifier::rlimit(100)]
pub proof fn lemma_claims_sound(t: Seq<char>)
    requires
        read_claims_spec(t) is Some,
    ensures
        claims_text(read_claims_spec(t).unwrap()) == t,
{
    reveal(read_claims_spec);
    let v = read_claims_spec(t).unwrap();
    let u = v.user_data;
    reveal_strlit("}");
    let r11 = "}"@;
    let r10 = "},\"exp\":"@ + (nat_text(v.exp) + r11);
    let r9 = ",\"updated_at\":"@ + (int_text(u.updated_at) + r10);
    let r8 = ",\"created_at\":"@ + (int_text(u.created_at) + r9);
    let r7 = ",\"photo\":"@ + (json_string(u.photo) + r8);
    let r6 = ",\"role\":"@ + (json_string(u.role) + r7);
    let r5 = ",\"phone_number\":"@ + (json_string(u.phone_number) + r6);
    let r4 = ",\"address\":"@ + (json_string(u.address) + r5);
    let r3 = ",\"full_name\":"@ + (json_string(u.full_name) + r4);
    let r2 = ",\"password\":"@ + (json_string(u.password) + r3);
    let r1 = ",\"username\":"@ + (json_string(u.username) + r2);
    let r0 = "{\"user_data\":{\"id\":"@ + (int_text(u.id) + r1);
    let q1 = int_field(t, 0, "{\"user_data\":{\"id\":"@, i32::MIN as int, i32::MAX as int).unwrap().1;
    let q2 = str_field(t, q1, ",\"username\":"@).unwrap().1;
    let q3 = str_field(t, q2, ",\"password\":"@).unwrap().1;
    let q4 = str_field(t, q3, ",\"full_name\":"@).unwrap().1;
    let q5 = str_field(t, q4, ",\"address\":"@).unwrap().1;
    let q6 = str_field(t, q5, ",\"phone_number\":"@).unwrap().1;
    let q7 = str_field(t, q6, ",\"role\":"@).unwrap().1;
    let q8 = str_field(t, q7, ",\"photo\":"@).unwrap().1;
    let q9 = int_field(t, q8, ",\"created_at\":"@, i64::MIN as int, i64::MAX as int).unwrap().1;
    let q10 = int_field(t, q9, ",\"updated_at\":"@, i64::MIN as int, i64::MAX as int).unwrap().1;
    let q11 = nat_field(t, q10, "},\"exp\":"@, usize::MAX as nat).unwrap().1;
    assert(text_at(t, q11, r11));
    assert(q11 + r11.len() == t.len());
    lemma_nat_step_back(t, q10, "},\"exp\":"@, usize::MAX as nat, r11);
    lemma_int_step_back(t, q9, ",\"updated_at\":"@, i64::MIN as int, i64::MAX as int, r10);
    lemma_int_step_back(t, q8, ",\"created_at\":"@, i64::MIN as int, i64::MAX as int, r9);
    lemma_str_step_back(t, q7, ",\"photo\":"@, r8);
    lemma_str_step_back(t, q6, ",\"role\":"@, r7);
    lemma_str_step_back(t, q5, ",\"phone_number\":"@, r6);
    lemma_str_step_back(t, q4, ",\"address\":"@, r5);
    lemma_str_step_back(t, q3, ",\"full_name\":"@, r4);
    lemma_str_step_back(t, q2, ",\"password\":"@, r3);
    lemma_str_step_back(t, q1, ",\"username\":"@, r2);
    lemma_int_step_back(t, 0, "{\"user_data\":{\"id\":"@, i32::MIN as int, i32::MAX as int, r1);
    assert(r0 == claims_text(v));
    assert(t.subrange(0, r0.len() as int) == r0);
    assert(t =~= r0);
}

/// Claims in range are the claims of their own text.
pub proof fn lemma_text_claims(c: ClaimsView)
    requires
        claims_in_range(c),
    ensures
        claims_of_text(claims_text(c)) == Some(c),
{
    let t = claims_text(c);
    assert(claims_in_range(c) && claims_text(c) == t);
    let d = choose|d: ClaimsView| claims_in_range(d) && #[trigger] claims_text(d) == t;
    lemma_claims_round_trip(c);
    lemma_claims_round_trip(d);
}

/// Reads claims from their JSON text: the claims whose text it is, and
/// nothing for any other text.
pub fn read_claims(src: &str) -> (r: Option<JwtClaims>)
    ensures
        match r {
            Some(c) => claims_of_text(src@) == Some(c@) && claims_text(c@) == src@,
            None => claims_of_text(src@) is None,
        },
{
    let r = scan_claims(src);
    proof {
        match &r {
            Some(c) => {
                lemma_claims_sound(src@);
                lemma_text_claims(c@);
            },
            None => {
                if exists|c: ClaimsView| claims_in_range(c) && #[trigger] claims_text(c) == src@ {
                    let c = choose|c: ClaimsView| claims_in_range(c) && #[trigger] claims_text(c)
                        == src@;
                    lemma_claims_round_trip(c);
                }
            },
        }
    }
    r
}

} // verus!
