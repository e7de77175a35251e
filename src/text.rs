//! Decimal numbers and JSON strings in a sequence of characters: their
//! text, and strict readers whose results are pinned by spec functions.
use vstd::prelude::*;

verus! {

pub open spec fn is_digit(c: char) -> bool {
    '0' <= c && c <= '9'
}

pub open spec fn digit_char(d: nat) -> char {
    (d + 48) as char
}

/// `x` stands in `t` from position `p` on.
pub open spec fn text_at(t: Seq<char>, p: int, x: Seq<char>) -> bool {
    0 <= p && p + x.len() <= t.len() && t.subrange(p, p + x.len()) == x
}

/// Position `p` ends a run of digits.
pub open spec fn ends_number(t: Seq<char>, p: int) -> bool {
    p == t.len() || (0 <= p < t.len() && !is_digit(t[p]))
}

/// Decimal text of a natural number, without leading zeros.
pub open spec fn nat_text(n: nat) -> Seq<char>
    decreases n,
{
    if n < 10 {
        seq![digit_char(n)]
    } else {
        nat_text(n / 10).push(digit_char(n % 10))
    }
}

/// Decimal text of an integer, with a minus sign when negative.
pub open spec fn int_text(n: int) -> Seq<char> {
    if n < 0 {
        seq!['-'] + nat_text((-n) as nat)
    } else {
        nat_text(n as nat)
    }
}

/// The value of a sequence of decimal digits.
pub open spec fn digits_value(d: Seq<char>) -> nat
    decreases d.len(),
{
    if d.len() == 0 {
        0
    } else {
        digits_value(d.drop_last()) * 10 + ((d.last() as int - 48) as nat)
    }
}

pub open spec fn all_digits(d: Seq<char>) -> bool {
    forall|i: int| 0 <= i < d.len() ==> #[trigger] is_digit(d[i])
}

/// Natural number `n`, at most `max`, is written at `p` and the digits end
/// there.
pub open spec fn nat_at(t: Seq<char>, p: int, n: nat, max: nat) -> bool {
    n <= max && text_at(t, p, nat_text(n)) && ends_number(t, p + nat_text(n).len())
}

/// What reading a natural number at `p` gives: the number and the position
/// after it.
pub open spec fn read_nat_spec(t: Seq<char>, p: int, max: nat) -> Option<(nat, int)> {
    if exists|n: nat| nat_at(t, p, n, max) {
        let n = choose|n: nat| nat_at(t, p, n, max);
        Some((n, p + nat_text(n).len()))
    } else {
        None
    }
}

pub proof fn lemma_nat_text(n: nat)
    ensures
        all_digits(nat_text(n)),
        nat_text(n).len() >= 1,
        digits_value(nat_text(n)) == n,
        nat_text(n).len() > 1 ==> nat_text(n)[0] != '0',
        n >= 1 ==> nat_text(n)[0] != '0',
    decreases n,
{
    if n >= 10 {
        lemma_nat_text(n / 10);
        let s = nat_text(n / 10);
        assert(nat_text(n).drop_last() =~= s);
        assert(nat_text(n)[0] == s[0]);
        assert(nat_text(n).last() == digit_char(n % 10));
        assert(digit_char(n % 10) as int == n % 10 + 48);
        assert(digits_value(nat_text(n)) == digits_value(s) * 10 + n % 10);
        assert(n == (n / 10) * 10 + n % 10);
        assert(all_digits(nat_text(n))) by {
            assert forall|i: int| 0 <= i < nat_text(n).len() implies #[trigger] is_digit(
                nat_text(n)[i],
            ) by {
                if i < s.len() {
                    assert(nat_text(n)[i] == s[i]);
                }
            }
        }
    } else {
        assert(nat_text(n).drop_last() =~= Seq::<char>::empty());
        assert(digit_char(n) as int == n + 48);
        assert(digits_value(Seq::<char>::empty()) == 0);
        assert(digits_value(nat_text(n)) == digits_value(Seq::<char>::empty()) * 10 + n);
    }
}

pub proof fn lemma_value_positive(d: Seq<char>)
    requires
        all_digits(d),
        d.len() >= 1,
        d[0] != '0',
    ensures
        digits_value(d) >= 1,
    decreases d.len(),
{
    assert(is_digit(d[d.len() - 1]));
    if d.len() > 1 {
        let e = d.drop_last();
        assert(e[0] == d[0]);
        assert(all_digits(e)) by {
            assert forall|i: int| 0 <= i < e.len() implies #[trigger] is_digit(e[i]) by {
                assert(e[i] == d[i]);
            }
        }
        lemma_value_positive(e);
    } else {
        assert(is_digit(d[0]));
        assert(d.drop_last().len() == 0);
    }
}

/// Digits without a leading zero are the text of their value.
pub proof fn lemma_canonical_digits(d: Seq<char>)
    requires
        all_digits(d),
        d.len() >= 1,
        d.len() > 1 ==> d[0] != '0',
    ensures
        nat_text(digits_value(d)) == d,
    decreases d.len(),
{
    let x = d.last();
    assert(is_digit(d[d.len() - 1]));
    if d.len() == 1 {
        assert(digits_value(d.drop_last()) == 0) by {
            assert(d.drop_last().len() == 0);
        }
        assert(nat_text(digits_value(d)) =~= d);
    } else {
        let e = d.drop_last();
        assert(forall|i: int| 0 <= i < e.len() ==> e[i] == d[i]);
        assert(e[0] == d[0]);
        lemma_canonical_digits(e);
        lemma_value_positive(e);
        let v = digits_value(d);
        let w = digits_value(e);
        assert(v == w * 10 + ((x as int - 48) as nat));
        assert(v / 10 == w);
        assert(v % 10 == (x as int - 48));
        assert(nat_text(v) =~= e.push(x));
        assert(e.push(x) =~= d);
    }
}

pub proof fn lemma_prefix_value(d: Seq<char>, k: int)
    requires
        all_digits(d),
        0 <= k <= d.len(),
    ensures
        digits_value(d.take(k)) <= digits_value(d),
    decreases d.len(),
{
    if k < d.len() {
        let e = d.drop_last();
        assert(d.take(k) =~= e.take(k));
        lemma_prefix_value(e, k);
    } else {
        assert(d.take(k) =~= d);
    }
}

/// At most one number is written at a position.
pub proof fn lemma_nat_at_unique(t: Seq<char>, p: int, n: nat, m: nat, max: nat)
    requires
        nat_at(t, p, n, max),
        nat_at(t, p, m, max),
    ensures
        n == m,
{
    lemma_nat_text(n);
    lemma_nat_text(m);
    let a = nat_text(n);
    let b = nat_text(m);
    if a.len() < b.len() {
        assert(b[a.len() as int] == t[p + a.len()]);
        assert(is_digit(b[a.len() as int]));
    } else if b.len() < a.len() {
        assert(a[b.len() as int] == t[p + b.len()]);
        assert(is_digit(a[b.len() as int]));
    } else {
        assert(a =~= b);
    }
}

pub proof fn lemma_read_nat(t: Seq<char>, p: int, n: nat, max: nat)
    requires
        nat_at(t, p, n, max),
    ensures
        read_nat_spec(t, p, max) == Some((n, p + nat_text(n).len())),
{
    let m = choose|m: nat| nat_at(t, p, m, max);
    lemma_nat_at_unique(t, p, n, m, max);
}

/// Reads the decimal natural number at `p`, of at most `max`.
pub fn read_nat(t: &Vec<char>, p: usize, max: u64) -> (r: Option<(u64, usize)>)
    ensures
        match r {
            Some((v, q)) => read_nat_spec(t@, p as int, max as nat) == Some((v as nat, q as int)),
            None => read_nat_spec(t@, p as int, max as nat) is None,
        },
{
    let n = t.len();
    if p >= n {
        proof {
            if exists|k: nat| nat_at(t@, p as int, k, max as nat) {
                let k = choose|k: nat| nat_at(t@, p as int, k, max as nat);
                lemma_nat_text(k);
            }
        }
        return None;
    }
    let mut j: usize = p;
    let mut v: u128 = 0;
    while j < n && '0' <= t[j] && t[j] <= '9'
        invariant
            n == t@.len(),
            p <= j <= n,
            p < n,
            all_digits(t@.subrange(p as int, j as int)),
            v == digits_value(t@.subrange(p as int, j as int)),
            v <= max,
        decreases n - j,
    {
        let ghost prev = t@.subrange(p as int, j as int);
        let d: u128 = (t[j] as u32 - 48) as u128;
        v = v * 10 + d;
        let ghost next = t@.subrange(p as int, j + 1);
        assert(next.drop_last() =~= prev);
        assert(all_digits(next)) by {
            assert forall|i: int| 0 <= i < next.len() implies #[trigger] is_digit(next[i]) by {
                if i < prev.len() {
                    assert(next[i] == prev[i]);
                }
            }
        }
        if v > max as u128 {
            proof {
                if exists|k: nat| nat_at(t@, p as int, k, max as nat) {
                    let k = choose|k: nat| nat_at(t@, p as int, k, max as nat);
                    lemma_nat_text(k);
                    let e = p + nat_text(k).len();
                    assert(e > j) by {
                        if e <= j {
                            assert(t@[e] == next[e - p]);
                        }
                    }
                    let run = t@.subrange(p as int, e);
                    assert(run == nat_text(k));
                    assert(run.take(j + 1 - p) =~= next);
                    lemma_prefix_value(run, j + 1 - p);
                }
            }
            return None;
        }
        j = j + 1;
    }
    let ghost run = t@.subrange(p as int, j as int);
    proof {
        // Whatever number might stand at p, its digits are exactly `run`.
        assert forall|k: nat| nat_at(t@, p as int, k, max as nat) implies nat_text(k) == run by {
            lemma_nat_text(k);
            let e = p + nat_text(k).len();
            if e < j {
                assert(t@[e] == run[e - p]);
                assert(is_digit(run[e - p]));
            } else if e > j {
                assert(t@[j as int] == nat_text(k)[j - p]);
                assert(is_digit(nat_text(k)[j - p]));
            }
            assert(nat_text(k) =~= run);
        }
    }
    if j == p {
        proof {
            if exists|k: nat| nat_at(t@, p as int, k, max as nat) {
                let k = choose|k: nat| nat_at(t@, p as int, k, max as nat);
                lemma_nat_text(k);
            }
        }
        return None;
    }
    if j > p + 1 && t[p] == '0' {
        proof {
            if exists|k: nat| nat_at(t@, p as int, k, max as nat) {
                let k = choose|k: nat| nat_at(t@, p as int, k, max as nat);
                lemma_nat_text(k);
                assert(run[0] == t@[p as int]);
            }
        }
        return None;
    }
    proof {
        assert(run.len() > 1 ==> run[0] != '0') by {
            if run.len() > 1 {
                assert(run[0] == t@[p as int]);
            }
        }
        lemma_canonical_digits(run);
        assert(nat_at(t@, p as int, v as nat, max as nat));
        lemma_read_nat(t@, p as int, v as nat, max as nat);
    }
    Some((v as u64, j))
}

/// Lower-case hexadecimal digit of a value below 16.
pub open spec fn hex_char(d: nat) -> char {
    if d < 10 {
        (d + 48) as char
    } else {
        (d + 87) as char
    }
}



/// How one character stands inside a JSON string: quote and backslash are
/// escaped by a backslash, control characters by `\u00XX`.
pub open spec fn escape_char(c: char) -> Seq<char> {
    if c == '"' {
        seq!['\\', '"']
    } else if c == '\\' {
        seq!['\\', '\\']
    } else if (c as u32) < 32 {
        seq![
            '\\',
            'u',
            '0',
            '0',
            hex_char(((c as u32) / 16) as nat),
            hex_char(((c as u32) % 16) as nat),
        ]
    } else {
        seq![c]
    }
}

/// The escaped body of a JSON string.
pub open spec fn escaped(s: Seq<char>) -> Seq<char>
    decreases s.len(),
{
    if s.len() == 0 {
        Seq::empty()
    } else {
        escape_char(s[0]) + escaped(s.drop_first())
    }
}

/// A JSON string literal holding `s`.
pub open spec fn json_string(s: Seq<char>) -> Seq<char> {
    seq!['"'] + escaped(s) + seq!['"']
}

pub proof fn lemma_escaped_concat(a: Seq<char>, b: Seq<char>)
    ensures
        escaped(a + b) == escaped(a) + escaped(b),
    decreases a.len(),
{
    if a.len() == 0 {
        assert(a + b =~= b);
        assert(escaped(a) =~= Seq::<char>::empty());
        assert(escaped(a) + escaped(b) =~= escaped(b));
    } else {
        assert((a + b).drop_first() =~= a.drop_first() + b);
        lemma_escaped_concat(a.drop_first(), b);
        assert(escaped(a + b) =~= escaped(a) + escaped(b));
    }
}

pub proof fn lemma_escaped_single(c: char)
    ensures
        escaped(seq![c]) == escape_char(c),
{
    let e = Seq::<char>::empty();
    assert(seq![c].drop_first() =~= e);
    assert(escaped(e) =~= e);
    assert(escaped(seq![c]) =~= escape_char(c) + e);
}

pub fn write_nat(out: &mut String, n: u64)
    ensures
        final(out)@ == old(out)@ + nat_text(n as nat),
    decreases n,
{
    if n >= 10 {
        write_nat(out, n / 10);
    }
    let d: usize = (n % 10) as usize;
    let digits = "0123456789";
    proof {
        reveal_strlit("0123456789");
    }
    let piece = digits.substring_char(d, d + 1);
    assert(piece@ =~= seq![digit_char(d as nat)]);
    out.append(piece);
    proof {
        if n >= 10 {
            assert(final(out)@ =~= old(out)@ + nat_text(n as nat));
        } else {
            assert(final(out)@ =~= old(out)@ + nat_text(n as nat));
        }
    }
}

pub fn write_int(out: &mut String, n: i64)
    ensures
        final(out)@ == old(out)@ + int_text(n as int),
{
    if n < 0 {
        out.append("-");
        let m: u64 = (-(n as i128)) as u64;
        write_nat(out, m);
        proof {
            reveal_strlit("-");
            assert(final(out)@ =~= old(out)@ + int_text(n as int));
        }
    } else {
        write_nat(out, n as u64);
    }
}

fn write_escaped_char(out: &mut String, s: &str, i: usize, n: usize)
    requires
        n == s@.len(),
        i < n,
    ensures
        final(out)@ == old(out)@ + escape_char(s@[i as int]),
{
    let c = s.get_char(i);
    if c == '"' {
        out.append("\\\"");
        proof { reveal_strlit("\\\""); }
        assert(final(out)@ =~= old(out)@ + escape_char(c));
    } else if c == '\\' {
        out.append("\\\\");
        proof { reveal_strlit("\\\\"); }
        assert(final(out)@ =~= old(out)@ + escape_char(c));
    } else if (c as u32) < 32 {
        let v: usize = c as u32 as usize;
        let hex = "0123456789abcdef";
        proof {
            reveal_strlit("0123456789abcdef");
            reveal_strlit("\\u00");
        }
        out.append("\\u00");
        let hi = hex.substring_char(v / 16, v / 16 + 1);
        let lo = hex.substring_char(v % 16, v % 16 + 1);
        assert(hi@ =~= seq![hex_char(((c as u32) / 16) as nat)]);
        assert(lo@ =~= seq![hex_char(((c as u32) % 16) as nat)]);
        out.append(hi);
        out.append(lo);
        assert(final(out)@ =~= old(out)@ + escape_char(c));
    } else {
        let piece = s.substring_char(i, i + 1);
        out.append(piece);
        assert(final(out)@ =~= old(out)@ + escape_char(c));
    }
}

pub fn write_string(out: &mut String, s: &str)
    ensures
        final(out)@ == old(out)@ + json_string(s@),
{
    let ghost start = out@;
    out.append("\"");
    proof { reveal_strlit("\""); }
    let n = s.unicode_len();
    let mut i: usize = 0;
    while i < n
        invariant
            n == s@.len(),
            i <= n,
            out@ == start + seq!['"'] + escaped(s@.take(i as int)),
        decreases n - i,
    {
        write_escaped_char(out, s, i, n);
        proof {
            assert(s@.take(i + 1) =~= s@.take(i as int) + seq![s@[i as int]]);
            lemma_escaped_concat(s@.take(i as int), seq![s@[i as int]]);
            lemma_escaped_single(s@[i as int]);
        }
        i = i + 1;
    }
    out.append("\"");
    assert(s@.take(n as int) =~= s@);
    assert(out@ =~= start + json_string(s@));
}

/// Integer `n`, within `lo..=hi`, is written at `p` and its digits end there.
pub open spec fn int_at(t: Seq<char>, p: int, n: int, lo: int, hi: int) -> bool {
    lo <= n <= hi && text_at(t, p, int_text(n)) && ends_number(t, p + int_text(n).len())
}

/// What reading an integer at `p` gives: the integer and the position after it.
pub open spec fn read_int_spec(t: Seq<char>, p: int, lo: int, hi: int) -> Option<(int, int)> {
    if exists|n: int| int_at(t, p, n, lo, hi) {
        let n = choose|n: int| int_at(t, p, n, lo, hi);
        Some((n, p + int_text(n).len()))
    } else {
        None
    }
}

proof fn lemma_int_at_nat(t: Seq<char>, p: int, n: int, lo: int, hi: int)
    requires
        lo < 0 <= hi,
    ensures
        n >= 0 ==> (int_at(t, p, n, lo, hi) <==> nat_at(t, p, n as nat, hi as nat)),
        n < 0 ==> (int_at(t, p, n, lo, hi) <==> (0 <= p < t.len() && t[p] == '-' && nat_at(
            t,
            p + 1,
            (-n) as nat,
            (-lo) as nat,
        ))),
{
    if n < 0 {
        let m = (-n) as nat;
        let x = int_text(n);
        assert(x == seq!['-'] + nat_text(m));
        if int_at(t, p, n, lo, hi) {
            assert(t[p] == x[0]);
            assert(t.subrange(p + 1, p + 1 + nat_text(m).len()) =~= x.drop_first());
            assert(x.drop_first() =~= nat_text(m));
        }
        if 0 <= p < t.len() && t[p] == '-' && nat_at(t, p + 1, m, (-lo) as nat) {
            assert(t.subrange(p, p + x.len()) =~= x) by {
                assert forall|j: int| 0 <= j < x.len() implies t.subrange(p, p + x.len())[j]
                    == x[j] by {
                    if j > 0 {
                        assert(t.subrange(p + 1, p + 1 + nat_text(m).len())[j - 1] == nat_text(
                            m,
                        )[j - 1]);
                    }
                }
            }
        }
    }
}

/// At most one integer is written at a position.
pub proof fn lemma_int_at_unique(t: Seq<char>, p: int, n: int, m: int, lo: int, hi: int)
    requires
        lo < 0 <= hi,
        int_at(t, p, n, lo, hi),
        int_at(t, p, m, lo, hi),
    ensures
        n == m,
{
    lemma_int_at_nat(t, p, n, lo, hi);
    lemma_int_at_nat(t, p, m, lo, hi);
    if n >= 0 && m >= 0 {
        lemma_nat_at_unique(t, p, n as nat, m as nat, hi as nat);
    } else if n < 0 && m < 0 {
        lemma_nat_at_unique(t, p + 1, (-n) as nat, (-m) as nat, (-lo) as nat);
    } else if n >= 0 {
        lemma_nat_text(n as nat);
        assert(t[p] == nat_text(n as nat)[0]);
        assert(is_digit(nat_text(n as nat)[0]));
    } else {
        lemma_nat_text(m as nat);
        assert(t[p] == nat_text(m as nat)[0]);
        assert(is_digit(nat_text(m as nat)[0]));
    }
}

pub proof fn lemma_read_int(t: Seq<char>, p: int, n: int, lo: int, hi: int)
    requires
        lo < 0 <= hi,
        int_at(t, p, n, lo, hi),
    ensures
        read_int_spec(t, p, lo, hi) == Some((n, p + int_text(n).len())),
{
    let m = choose|m: int| int_at(t, p, m, lo, hi);
    lemma_int_at_unique(t, p, n, m, lo, hi);
}

/// Reads the decimal integer at `p`, within `lo..=hi`.
pub fn read_int(t: &Vec<char>, p: usize, lo: i64, hi: i64) -> (r: Option<(i64, usize)>)
    requires
        lo < 0 <= hi,
    ensures
        match r {
            Some((v, q)) => read_int_spec(t@, p as int, lo as int, hi as int) == Some(
                (v as int, q as int),
            ),
            None => read_int_spec(t@, p as int, lo as int, hi as int) is None,
        },
{
    let ghost tt = t@;
    if p < t.len() && t[p] == '-' {
        let neg_max: u64 = (-(lo as i128)) as u64;
        match read_nat(t, p + 1, neg_max) {
            Some((v, q)) => {
                if v == 0 {
                    proof {
                        if exists|k: int| int_at(tt, p as int, k, lo as int, hi as int) {
                            let k = choose|k: int| int_at(tt, p as int, k, lo as int, hi as int);
                            lemma_int_at_nat(tt, p as int, k, lo as int, hi as int);
                            if k >= 0 {
                                lemma_nat_text(k as nat);
                                assert(is_digit(nat_text(k as nat)[0]));
                                assert(tt[p as int] == nat_text(k as nat)[0]);
                            } else {
                                let pp = p + 1;
                                lemma_read_nat(tt, pp, (-k) as nat, neg_max as nat);
                            }
                        }
                    }
                    return None;
                }
                let n: i64 = (-(v as i128)) as i64;
                proof {
                    let m = (-n) as nat;
                    assert(m == v);
                    let pp = p + 1;
                    assert(read_nat_spec(tt, pp, neg_max as nat) == Some((m, q as int)));
                    assert(nat_at(tt, pp, m, neg_max as nat));
                    lemma_int_at_nat(tt, p as int, n as int, lo as int, hi as int);
                    lemma_read_int(tt, p as int, n as int, lo as int, hi as int);
                }
                Some((n, q))
            },
            None => {
                proof {
                    if exists|k: int| int_at(tt, p as int, k, lo as int, hi as int) {
                        let k = choose|k: int| int_at(tt, p as int, k, lo as int, hi as int);
                        lemma_int_at_nat(tt, p as int, k, lo as int, hi as int);
                        if k >= 0 {
                            lemma_nat_text(k as nat);
                            assert(is_digit(nat_text(k as nat)[0]));
                            assert(tt[p as int] == nat_text(k as nat)[0]);
                        } else {
                            let pp = p + 1;
                            assert(nat_at(tt, pp, (-k) as nat, neg_max as nat));
                        }
                    }
                }
                None
            },
        }
    } else {
        match read_nat(t, p, hi as u64) {
            Some((v, q)) => {
                proof {
                    assert(nat_at(tt, p as int, v as nat, hi as nat));
                    lemma_int_at_nat(tt, p as int, v as int, lo as int, hi as int);
                    lemma_read_int(tt, p as int, v as int, lo as int, hi as int);
                }
                Some((v as i64, q))
            },
            None => {
                proof {
                    if exists|k: int| int_at(tt, p as int, k, lo as int, hi as int) {
                        let k = choose|k: int| int_at(tt, p as int, k, lo as int, hi as int);
                        lemma_int_at_nat(tt, p as int, k, lo as int, hi as int);
                        if k >= 0 {
                            assert(nat_at(tt, p as int, k as nat, hi as nat));
                        }
                    }
                }
                None
            },
        }
    }
}

pub open spec fn is_hex(c: char) -> bool {
    ('0' <= c && c <= '9') || ('a' <= c && c <= 'f')
}

pub open spec fn hex_value(c: char) -> int {
    if '0' <= c && c <= '9' {
        c as int - 48
    } else {
        c as int - 87
    }
}

/// The character that `\u00` followed by the two hexadecimal digits stands for.
pub open spec fn hex_pair(hi: char, lo: char) -> char {
    (((hi as int - 48) * 16 + hex_value(lo)) as u32) as char
}

/// Reads the body of a JSON string from `i` on, after `acc` has been read:
/// the characters up to the closing quote and the position after it.
pub open spec fn scan_string(t: Seq<char>, i: int, acc: Seq<char>) -> Option<(Seq<char>, int)>
    decreases t.len() - i,
{
    if i < 0 || i >= t.len() {
        None
    } else if t[i] == '"' {
        Some((acc, i + 1))
    } else if t[i] == '\\' {
        if i + 1 < t.len() && (t[i + 1] == '"' || t[i + 1] == '\\') {
            scan_string(t, i + 2, acc.push(t[i + 1]))
        } else if i + 5 < t.len() && t[i + 1] == 'u' && t[i + 2] == '0' && t[i + 3] == '0' && (
        t[i + 4] == '0' || t[i + 4] == '1') && is_hex(t[i + 5]) {
            scan_string(
                t,
                i + 6,
                acc.push(hex_pair(t[i + 4], t[i + 5])),
            )
        } else {
            None
        }
    } else if (t[i] as u32) < 32 {
        None
    } else {
        scan_string(t, i + 1, acc.push(t[i]))
    }
}

/// What reading a JSON string at `p` gives: its characters and the position
/// after it.
pub open spec fn read_string_spec(t: Seq<char>, p: int) -> Option<(Seq<char>, int)> {
    if 0 <= p < t.len() && t[p] == '"' {
        scan_string(t, p + 1, Seq::empty())
    } else {
        None
    }
}

proof fn lemma_scan_complete(t: Seq<char>, i: int, acc: Seq<char>, s: Seq<char>)
    requires
        text_at(t, i, escaped(s) + seq!['"']),
    ensures
        scan_string(t, i, acc) == Some((acc + s, i + escaped(s).len() + 1)),
    decreases s.len(),
{
    let x = escaped(s) + seq!['"'];
    if s.len() == 0 {
        assert(escaped(s) =~= Seq::<char>::empty());
        assert(t[i] == x[0]);
        assert(acc + s =~= acc);
    } else {
        let c = s[0];
        let e = escape_char(c);
        let rest = s.drop_first();
        assert(escaped(s) == e + escaped(rest));
        let k = e.len() as int;
        assert(x =~= e + (escaped(rest) + seq!['"']));
        assert(forall|j: int| 0 <= j < k ==> t[i + j] == #[trigger] e[j]) by {
            assert forall|j: int| 0 <= j < k implies t[i + j] == #[trigger] e[j] by {
                assert(t.subrange(i, i + x.len())[j] == x[j]);
                assert(x[j] == e[j]);
            }
        }
        assert(text_at(t, i + k, escaped(rest) + seq!['"'])) by {
            assert(t.subrange(i + k, i + k + escaped(rest).len() + 1) =~= escaped(rest) + seq![
                '"',
            ]) by {
                assert forall|j: int| 0 <= j < escaped(rest).len() + 1 implies t[i + k + j] == (
                escaped(rest) + seq!['"'])[j] by {
                    assert(t.subrange(i, i + x.len())[k + j] == x[k + j]);
                }
            }
        }
        lemma_scan_complete(t, i + k, acc.push(c), rest);
        assert(acc.push(c) + rest =~= acc + s);
        if c == '"' || c == '\\' {
            assert(t[i] == '\\');
            assert(t[i + 1] == c);
        } else if (c as u32) < 32 {
            let v = c as u32;
            assert(e[4] == hex_char((v / 16) as nat));
            assert(e[5] == hex_char((v % 16) as nat));
            assert(t[i + 4] as int == v / 16 + 48);
            assert(hex_value(t[i + 5]) == v % 16);
            assert((t[i + 4] as int - 48) * 16 + hex_value(t[i + 5]) == v);
            assert((((t[i + 4] as int - 48) * 16 + hex_value(t[i + 5])) as u32) == v);
            vstd::utf8::char_u32_cast(c, v);
            assert(hex_pair(t[i + 4], t[i + 5]) == c);
        } else {
            assert(e[0] == c);
            assert(t[i] == c);
        }
    }
}

/// A JSON string literal written at `p` reads back as the same characters.
pub proof fn lemma_read_string(t: Seq<char>, p: int, s: Seq<char>)
    requires
        text_at(t, p, json_string(s)),
    ensures
        read_string_spec(t, p) == Some((s, p + json_string(s).len())),
{
    let x = json_string(s);
    assert(t[p] == x[0]);
    assert(t.subrange(p + 1, p + 1 + escaped(s).len() + 1) =~= escaped(s) + seq!['"']) by {
        assert forall|j: int| 0 <= j < escaped(s).len() + 1 implies t[p + 1 + j] == (escaped(s)
            + seq!['"'])[j] by {
            assert(t[p + 1 + j] == x[1 + j]);
        }
    }
    lemma_scan_complete(t, p + 1, Seq::empty(), s);
    assert(Seq::<char>::empty() + s =~= s);
}

proof fn lemma_scan_sound(t: Seq<char>, i: int, acc: Seq<char>)
    requires
        scan_string(t, i, acc) is Some,
    ensures
        ({
            let (v, e) = scan_string(t, i, acc).unwrap();
            &&& acc.len() <= v.len()
            &&& v.take(acc.len() as int) == acc
            &&& text_at(t, i, escaped(v.skip(acc.len() as int)) + seq!['"'])
            &&& e == i + escaped(v.skip(acc.len() as int)).len() + 1
        }),
    decreases t.len() - i,
{
    let (v, e) = scan_string(t, i, acc).unwrap();
    if t[i] == '"' {
        assert(v.take(acc.len() as int) =~= acc);
        assert(v.skip(acc.len() as int) =~= Seq::<char>::empty());
        assert(escaped(Seq::<char>::empty()) =~= Seq::<char>::empty());
        assert(t.subrange(i, i + 1) =~= Seq::<char>::empty() + seq!['"']);
    } else {
        let (k, c) = if t[i] == '\\' && i + 1 < t.len() && (t[i + 1] == '"' || t[i + 1] == '\\') {
            (2int, t[i + 1])
        } else if t[i] == '\\' {
            (6int, hex_pair(t[i + 4], t[i + 5]))
        } else {
            (1int, t[i])
        };
        let a2 = acc.push(c);
        assert(scan_string(t, i + k, a2) == scan_string(t, i, acc));
        lemma_scan_sound(t, i + k, a2);
        let tail = v.skip(a2.len() as int);
        assert(v.take(acc.len() as int) =~= a2.take(acc.len() as int));
        assert(v[acc.len() as int] == c) by {
            assert(v.take(a2.len() as int)[acc.len() as int] == a2[acc.len() as int]);
        }
        assert(v.skip(acc.len() as int) =~= seq![c] + tail);
        lemma_escaped_concat(seq![c], tail);
        lemma_escaped_single(c);
        let ec = escape_char(c);
        assert(ec.len() == k);
        assert(t.subrange(i, i + k) =~= ec) by {
            if k == 6 {
                let v = c as u32;
                assert(v == (t[i + 4] as int - 48) * 16 + hex_value(t[i + 5]));
                assert(hex_char((v / 16) as nat) == t[i + 4]);
                assert(hex_char((v % 16) as nat) == t[i + 5]);
            }
        }
        let body = escaped(tail) + seq!['"'];
        assert(t.subrange(i, i + k + body.len()) =~= ec + body) by {
            assert(t.subrange(i + k, i + k + body.len()) == body);
        }
        assert(ec + body =~= escaped(v.skip(acc.len() as int)) + seq!['"']);
    }
}

/// A JSON string that reads at `p` stands there as the literal of what it
/// reads as.
pub proof fn lemma_read_string_sound(t: Seq<char>, p: int)
    requires
        read_string_spec(t, p) is Some,
    ensures
        ({
            let (s, q) = read_string_spec(t, p).unwrap();
            text_at(t, p, json_string(s)) && q == p + json_string(s).len()
        }),
{
    let e = Seq::<char>::empty();
    lemma_scan_sound(t, p + 1, e);
    let (s, q) = read_string_spec(t, p).unwrap();
    assert(s.skip(0) =~= s);
    let x = json_string(s);
    assert(t.subrange(p, p + x.len()) =~= x) by {
        assert forall|j: int| 0 <= j < x.len() implies t.subrange(p, p + x.len())[j] == x[j] by {
            if j > 0 {
                assert(t.subrange(p + 1, q)[j - 1] == (escaped(s) + seq!['"'])[j - 1]);
            }
        }
    }
}

/// The characters of `s`, one by one.
pub fn chars_of(s: &str) -> (r: Vec<char>)
    ensures
        r@ == s@,
{
    let n = s.unicode_len();
    let mut r: Vec<char> = Vec::new();
    let mut i: usize = 0;
    while i < n
        invariant
            n == s@.len(),
            i <= n,
            r@ == s@.take(i as int),
        decreases n - i,
    {
        r.push(s.get_char(i));
        assert(r@ =~= s@.take(i + 1));
        i = i + 1;
    }
    assert(s@.take(n as int) =~= s@);
    r
}

fn hex_digit_value(c: char) -> (r: usize)
    requires
        is_hex(c),
    ensures
        r as int == hex_value(c),
        r < 16,
{
    if '0' <= c && c <= '9' {
        (c as u32 - 48) as usize
    } else {
        (c as u32 - 87) as usize
    }
}

/// Reads the JSON string literal at `p` of `t`, the characters of `src`.
pub fn read_string(src: &str, t: &Vec<char>, p: usize) -> (r: Option<(String, usize)>)
    requires
        t@ == src@,
    ensures
        match r {
            Some((s, q)) => read_string_spec(t@, p as int) == Some((s@, q as int)),
            None => read_string_spec(t@, p as int) is None,
        },
{
    let n = t.len();
    if p >= n || t[p] != '"' {
        return None;
    }
    let control = "\u{0}\u{1}\u{2}\u{3}\u{4}\u{5}\u{6}\u{7}\u{8}\u{9}\u{a}\u{b}\u{c}\u{d}\u{e}\u{f}\u{10}\u{11}\u{12}\u{13}\u{14}\u{15}\u{16}\u{17}\u{18}\u{19}\u{1a}\u{1b}\u{1c}\u{1d}\u{1e}\u{1f}";
    proof {
        reveal_strlit("\u{0}\u{1}\u{2}\u{3}\u{4}\u{5}\u{6}\u{7}\u{8}\u{9}\u{a}\u{b}\u{c}\u{d}\u{e}\u{f}\u{10}\u{11}\u{12}\u{13}\u{14}\u{15}\u{16}\u{17}\u{18}\u{19}\u{1a}\u{1b}\u{1c}\u{1d}\u{1e}\u{1f}");
        assert(forall|k: int| 0 <= k < 32 ==> #[trigger] control@[k] == (k as u32) as char);
    }
    let mut out = String::new();
    let mut i: usize = p + 1;
    while i < n
        invariant
            n == t@.len(),
            t@ == src@,
            control@.len() == 32,
            forall|k: int| 0 <= k < 32 ==> #[trigger] control@[k] == (k as u32) as char,
            p + 1 <= i <= n,
            read_string_spec(t@, p as int) == scan_string(t@, i as int, out@),
        decreases n - i,
    {
        let c = t[i];
        let ghost before = out@;
        if c == '"' {
            return Some((out, i + 1));
        }
        if c == '\\' {
            if i + 1 < n && (t[i + 1] == '"' || t[i + 1] == '\\') {
                let piece = src.substring_char(i + 1, i + 2);
                assert(piece@ =~= seq![t@[i + 1]]);
                out.append(piece);
                assert(out@ =~= before.push(t@[i + 1]));
                assert(scan_string(t@, i as int, before) == scan_string(t@, i + 2, out@));
                i = i + 2;
            } else if n >= 6 && i < n - 5 && t[i + 1] == 'u' && t[i + 2] == '0' && t[i + 3] == '0' && (t[i
                + 4] == '0' || t[i + 4] == '1') && (('0' <= t[i + 5] && t[i + 5] <= '9') || ('a'
                <= t[i + 5] && t[i + 5] <= 'f')) {
                let v: usize = (t[i + 4] as u32 - 48) as usize * 16 + hex_digit_value(t[i + 5]);
                let piece = control.substring_char(v, v + 1);
                assert(piece@ =~= seq![hex_pair(t@[i + 4], t@[i + 5])]);
                out.append(piece);
                assert(is_hex(t@[i + 5]));
                assert(out@ =~= before.push(hex_pair(t@[i + 4], t@[i + 5])));
                assert(scan_string(t@, i as int, before) == scan_string(t@, i + 6, out@));
                i = i + 6;
            } else {
                return None;
            }
        } else if (c as u32) < 32 {
            return None;
        } else {
            let piece = src.substring_char(i, i + 1);
            assert(piece@ =~= seq![c]);
            out.append(piece);
            assert(out@ =~= before.push(c));
            assert(scan_string(t@, i as int, before) == scan_string(t@, i + 1, out@));
            i = i + 1;
        }
    }
    None
}

} // verus!
